//! What one instruction does to the machine state.
//!
//! An instruction is an opcode with a list of operands. Operands are plain
//! numbers: whether one is a register slot, a literal or an instruction
//! index is decided by the opcode that consumes it. Every step names the
//! index of the instruction to execute next: the following one, or the
//! target of a transfer.

use vstd::prelude::*;
use crate::rvm_isa::{
    OP_ADD, OP_AND, OP_CALL, OP_COMPARE, OP_DEC, OP_DIV, OP_INC, OP_INT, OP_JE, OP_JG, OP_JGE,
    OP_JL, OP_JLE, OP_JMP, OP_JNE, OP_MOD, OP_MOV, OP_MUL, OP_NOP, OP_NOT, OP_OR, OP_POP, OP_POPF,
    OP_PRN, OP_PUSH, OP_PUSHF, OP_REM, OP_RET, OP_SHL, OP_SHR, OP_SUB, OP_XOR,
};
use crate::rvm_memory::{
    pop_spec, push_spec, MachineState, RvmFault, RvmMem, RvmRegU, REG_STACK_TOP,
};

verus! {

/// The result of one step: the new state, the index of the next
/// instruction or the fault, and the number printed, if any.
pub struct StepOutcome {
    pub state: MachineState,
    pub next: Result<i32, RvmFault>,
    pub printed: Option<i32>,
}

/// A refused step: the state stays as it was.
pub open spec fn refused(m: MachineState, fault: RvmFault) -> StepOutcome {
    StepOutcome { state: m, next: Err(fault), printed: None }
}

/// A step that ends in state `m` and continues at `next`.
pub open spec fn goes_to(m: MachineState, next: int) -> StepOutcome {
    StepOutcome { state: m, next: Ok(next as i32), printed: None }
}

/// Whether `r` is a slot of the register file.
pub open spec fn has_slot(m: MachineState, r: i32) -> bool {
    0 <= r < m.registers.len()
}

/// `m` with slot `r` holding `v`.
pub open spec fn set_slot(m: MachineState, r: i32, v: RvmRegU) -> MachineState {
    MachineState { registers: m.registers.update(r as int, v), ..m }
}

/// The quotient of `a` by `b`, rounded toward zero (`b` is not zero).
pub open spec fn trunc_div(a: int, b: int) -> int {
    if a >= 0 && b > 0 {
        a / b
    } else if a < 0 && b < 0 {
        (-a) / (-b)
    } else if a < 0 {
        -((-a) / b)
    } else {
        -(a / (-b))
    }
}

/// The remainder that goes with `trunc_div`: it has the sign of `a`.
pub open spec fn trunc_rem(a: int, b: int) -> int {
    a - b * trunc_div(a, b)
}

/// Whether `a / b` is refused: division by zero, or the one quotient that
/// does not fit in 32 bits.
pub open spec fn division_refused(a: i32, b: i32) -> bool {
    b == 0 || (a == i32::MIN && b == -1)
}

/// The flags that comparing `a` with `b` gives: bit 0 says equal, bit 1
/// says greater.
pub open spec fn compare_flags(a: i32, b: i32) -> u32 {
    if a == b {
        1
    } else if a > b {
        2
    } else {
        0
    }
}

/// Whether the conditional jump `opcode` is taken under `flags`, as a
/// comparison left them: `je` on equal, `jne` on not equal, `jg` on
/// greater, `jge` on greater or equal, `jl` on less (neither bit set) and
/// `jle` on less or equal (the greater bit clear).
pub open spec fn jump_taken(opcode: i32, flags: u32) -> bool {
    if opcode == OP_JE {
        flags & 1 != 0
    } else if opcode == OP_JNE {
        flags & 1 == 0
    } else if opcode == OP_JG {
        flags & 2 != 0
    } else if opcode == OP_JGE {
        flags & 3 != 0
    } else if opcode == OP_JL {
        flags & 3 == 0
    } else if opcode == OP_JLE {
        flags & 2 == 0
    } else {
        false
    }
}

/// What a one-operand arithmetic opcode makes of the register value `v`.
pub open spec fn unary_result(opcode: i32, v: i32, remainder: i32) -> i32 {
    if opcode == OP_INC {
        v.wrapping_add(1)
    } else if opcode == OP_DEC {
        v.wrapping_sub(1)
    } else if opcode == OP_NOT {
        !v
    } else {
        remainder
    }
}

/// What a two-operand arithmetic opcode makes of the register value `v`
/// and the operand `s`; `None` where the division is refused. Sums,
/// differences and products wrap around; shift distances are taken
/// modulo 32.
pub open spec fn binary_result(opcode: i32, v: i32, s: i32) -> Option<i32> {
    if opcode == OP_ADD {
        Some(v.wrapping_add(s))
    } else if opcode == OP_SUB {
        Some(v.wrapping_sub(s))
    } else if opcode == OP_MUL {
        Some(v.wrapping_mul(s))
    } else if opcode == OP_DIV {
        if division_refused(v, s) {
            None
        } else {
            Some(trunc_div(v as int, s as int) as i32)
        }
    } else if opcode == OP_XOR {
        Some(v ^ s)
    } else if opcode == OP_OR {
        Some(v | s)
    } else if opcode == OP_AND {
        Some(v & s)
    } else if opcode == OP_SHL {
        Some(v.wrapping_shl(s as u32))
    } else {
        Some(v.wrapping_shr(s as u32))
    }
}

/// `mov d, s`: slot `d` gets the plain integer `s`.
pub open spec fn step_mov(m: MachineState, args: Seq<i32>, idx: i32) -> StepOutcome {
    if args.len() != 2 {
        goes_to(m, idx + 1)
    } else if !has_slot(m, args[0]) {
        refused(m, RvmFault::RegisterFault)
    } else {
        goes_to(set_slot(m, args[0], RvmRegU::I32(args[1])), idx + 1)
    }
}

/// `push s`, `pushf`, `pop d` and `popf`.
pub open spec fn step_stack(opcode: i32, m: MachineState, args: Seq<i32>, idx: i32) -> StepOutcome {
    if opcode == OP_PUSH {
        if args.len() != 1 {
            goes_to(m, idx + 1)
        } else {
            match push_spec(m, args[0]) {
                Ok(pushed) => goes_to(pushed, idx + 1),
                Err(fault) => refused(m, fault),
            }
        }
    } else if opcode == OP_PUSHF {
        match push_spec(m, m.flags as i32) {
            Ok(pushed) => goes_to(pushed, idx + 1),
            Err(fault) => refused(m, fault),
        }
    } else if opcode == OP_POP {
        if args.len() != 1 {
            goes_to(m, idx + 1)
        } else if !has_slot(m, args[0]) {
            refused(m, RvmFault::RegisterFault)
        } else {
            match pop_spec(m) {
                Ok((v, popped)) => goes_to(set_slot(popped, args[0], RvmRegU::I32(v)), idx + 1),
                Err(fault) => refused(m, fault),
            }
        }
    } else {
        match pop_spec(m) {
            Ok((v, popped)) => goes_to(MachineState { flags: v as u32, ..popped }, idx + 1),
            Err(fault) => refused(m, fault),
        }
    }
}

/// `inc d`, `dec d`, `not d` and `rem d`: they change slot `d` only where
/// it holds a plain integer.
pub open spec fn step_unary(opcode: i32, m: MachineState, args: Seq<i32>, idx: i32) -> StepOutcome {
    if args.len() != 1 {
        goes_to(m, idx + 1)
    } else if !has_slot(m, args[0]) {
        refused(m, RvmFault::RegisterFault)
    } else {
        match m.registers[args[0] as int] {
            RvmRegU::I32(v) => goes_to(
                set_slot(m, args[0], RvmRegU::I32(unary_result(opcode, v, m.remainder))),
                idx + 1,
            ),
            _ => goes_to(m, idx + 1),
        }
    }
}

/// `add`, `sub`, `mul`, `div`, `xor`, `or`, `and`, `shl`, `shr` and `mod`
/// with operands `d, s`: slot `d` is combined with the number `s`, where
/// the slot holds a plain integer. `mod` leaves the slot alone and sets
/// the remainder register.
pub open spec fn step_binary(
    opcode: i32,
    m: MachineState,
    args: Seq<i32>,
    idx: i32,
) -> StepOutcome {
    if args.len() != 2 {
        goes_to(m, idx + 1)
    } else if !has_slot(m, args[0]) {
        refused(m, RvmFault::RegisterFault)
    } else {
        match m.registers[args[0] as int] {
            RvmRegU::I32(v) => if opcode == OP_MOD {
                if division_refused(v, args[1]) {
                    refused(m, RvmFault::ArithmeticFault)
                } else {
                    goes_to(
                        MachineState {
                            remainder: trunc_rem(v as int, args[1] as int) as i32,
                            ..m
                        },
                        idx + 1,
                    )
                }
            } else {
                match binary_result(opcode, v, args[1]) {
                    Some(r) => goes_to(set_slot(m, args[0], RvmRegU::I32(r)), idx + 1),
                    None => refused(m, RvmFault::ArithmeticFault),
                }
            },
            _ => goes_to(m, idx + 1),
        }
    }
}

/// Comparing slots `a` and `b`: the flags are set where both hold plain integers.
pub open spec fn step_compare(m: MachineState, args: Seq<i32>, idx: i32) -> StepOutcome {
    if args.len() != 2 {
        goes_to(m, idx + 1)
    } else if !has_slot(m, args[0]) {
        refused(m, RvmFault::RegisterFault)
    } else {
        match m.registers[args[0] as int] {
            RvmRegU::I32(x) => if !has_slot(m, args[1]) {
                refused(m, RvmFault::RegisterFault)
            } else {
                match m.registers[args[1] as int] {
                    RvmRegU::I32(y) => goes_to(
                        MachineState { flags: compare_flags(x, y), ..m },
                        idx + 1,
                    ),
                    _ => goes_to(m, idx + 1),
                }
            },
            _ => goes_to(m, idx + 1),
        }
    }
}

/// A step that changes nothing and continues at the next index. At the
/// last index that 32 bits can hold there is no next index: the step is
/// refused.
pub open spec fn falls_through(m: MachineState, idx: i32) -> StepOutcome {
    if idx < i32::MAX {
        goes_to(m, idx + 1)
    } else {
        refused(m, RvmFault::InstructionFault)
    }
}

/// Whether the opcode is `jmp`, `call`, `ret` or a conditional jump.
pub open spec fn is_transfer(opcode: i32) -> bool {
    OP_JMP <= opcode <= OP_JLE
}

/// `jmp`, `call`, `ret` and the conditional jumps. A call pushes the index
/// of the call itself; a return pops an index and continues behind it. A
/// conditional jump goes to its target where its condition holds of the
/// flags. A transfer that is not taken, or has not the operands it needs,
/// falls through.
pub open spec fn step_transfer(
    opcode: i32,
    m: MachineState,
    args: Seq<i32>,
    idx: i32,
) -> StepOutcome {
    if opcode == OP_JMP {
        if args.len() == 1 {
            goes_to(m, args[0] as int)
        } else {
            falls_through(m, idx)
        }
    } else if opcode == OP_CALL {
        if args.len() == 1 {
            match push_spec(m, idx) {
                Ok(pushed) => goes_to(pushed, args[0] as int),
                Err(fault) => refused(m, fault),
            }
        } else {
            falls_through(m, idx)
        }
    } else if opcode == OP_RET {
        if args.len() == 0 {
            match pop_spec(m) {
                Ok((from, popped)) => if from < i32::MAX {
                    goes_to(popped, from + 1)
                } else {
                    refused(m, RvmFault::InstructionFault)
                },
                Err(fault) => refused(m, fault),
            }
        } else {
            falls_through(m, idx)
        }
    } else {
        if args.len() == 1 && jump_taken(opcode, m.flags) {
            goes_to(m, args[0] as int)
        } else {
            falls_through(m, idx)
        }
    }
}

/// `prn r`: prints slot `r` where it holds a plain integer.
pub open spec fn step_print(m: MachineState, args: Seq<i32>, idx: i32) -> StepOutcome {
    if args.len() != 1 {
        goes_to(m, idx + 1)
    } else if !has_slot(m, args[0]) {
        refused(m, RvmFault::RegisterFault)
    } else {
        match m.registers[args[0] as int] {
            RvmRegU::I32(v) => StepOutcome {
                state: m,
                next: Ok((idx + 1) as i32),
                printed: Some(v),
            },
            _ => goes_to(m, idx + 1),
        }
    }
}

/// One instruction, executed at index `idx`. A transfer goes where it
/// says. Any other instruction continues at the next index, and is refused
/// at the last index that 32 bits can hold, where there is none.
pub open spec fn step_spec(opcode: i32, args: Seq<i32>, idx: i32, m: MachineState) -> StepOutcome {
    if is_transfer(opcode) {
        step_transfer(opcode, m, args, idx)
    } else if idx == i32::MAX {
        refused(m, RvmFault::InstructionFault)
    } else if opcode == OP_NOP || opcode == OP_INT {
        goes_to(m, idx + 1)
    } else if opcode == OP_MOV {
        step_mov(m, args, idx)
    } else if opcode == OP_PUSH || opcode == OP_POP || opcode == OP_PUSHF || opcode == OP_POPF {
        step_stack(opcode, m, args, idx)
    } else if opcode == OP_INC || opcode == OP_DEC || opcode == OP_NOT || opcode == OP_REM {
        step_unary(opcode, m, args, idx)
    } else if OP_ADD <= opcode <= OP_MOD || OP_XOR <= opcode <= OP_SHR {
        step_binary(opcode, m, args, idx)
    } else if opcode == OP_COMPARE {
        step_compare(m, args, idx)
    } else if opcode == OP_PRN {
        step_print(m, args, idx)
    } else {
        refused(m, RvmFault::InvalidOpcode)
    }
}

/// `checked_div` of std gives the quotient rounded toward zero.
proof fn lemma_checked_div(a: i32, b: i32)
    ensures
        a.checked_div(b) is None <==> division_refused(a, b),
        a.checked_div(b) matches Some(q) ==> q == trunc_div(a as int, b as int),
{
    if b != 0 {
        let x = a as int;
        let d = b as int;
        lemma_trunc_div_bounds(x, d);
        let std_quotient = if x == 0 {
            0
        } else if x > 0 && d > 0 {
            x / d
        } else if x < 0 && d < 0 {
            ((x * -1) / (d * -1))
        } else if x < 0 {
            ((x * -1) / d) * -1
        } else {
            (x / (d * -1)) * -1
        };
        assert(x * -1 == -x && d * -1 == -d);
        assert(std_quotient == trunc_div(x, d));
        let size = abs_of(x) / abs_of(d);
        assert(abs_of(std_quotient) == size);
        if a == i32::MIN && b == -1 {
            assert(std_quotient == 0x8000_0000);
        } else {
            assert(size <= 0x8000_0000);
            if size == 0x8000_0000 {
                assert(a == i32::MIN && abs_of(d) == 1);
                assert(std_quotient == -0x8000_0000);
            }
            assert(i32::MIN <= std_quotient <= i32::MAX);
        }
    }
}

/// `checked_rem` of std gives the remainder that has the sign of the dividend.
proof fn lemma_checked_rem(a: i32, b: i32)
    ensures
        a.checked_rem(b) is None <==> division_refused(a, b),
        a.checked_rem(b) matches Some(r) ==> r == trunc_rem(a as int, b as int),
{
    if !division_refused(a, b) {
        let x = a as int;
        let d = b as int;
        lemma_trunc_div_bounds(x, d);
        let std_remainder = if x == 0 {
            0
        } else if x > 0 && d > 0 {
            x % d
        } else if x < 0 && d < 0 {
            ((x * -1) % (d * -1)) * -1
        } else if x < 0 {
            ((x * -1) % d) * -1
        } else {
            x % (d * -1)
        };
        assert(x * -1 == -x && d * -1 == -d);
        assert(std_remainder == trunc_rem(x, d));
        assert(i32::MIN <= std_remainder <= i32::MAX);
    }
}

/// The size of the quotient is the quotient of the sizes, and the
/// remainder has the sign of the dividend and the size of the remainder of
/// the sizes.
proof fn lemma_trunc_div_bounds(a: int, b: int)
    requires
        b != 0,
    ensures
        abs_of(trunc_div(a, b)) == abs_of(a) / abs_of(b),
        0 <= abs_of(a) / abs_of(b) <= abs_of(a),
        abs_of(b) >= 2 && a != 0 ==> abs_of(a) / abs_of(b) < abs_of(a),
        abs_of(b) == 1 ==> abs_of(a) / abs_of(b) == abs_of(a),
        0 <= abs_of(a) % abs_of(b) < abs_of(b),
        abs_of(a) % abs_of(b) <= abs_of(a),
        trunc_rem(a, b) == if a >= 0 {
            abs_of(a) % abs_of(b)
        } else {
            -(abs_of(a) % abs_of(b))
        },
{
    let x = abs_of(a);
    let d = abs_of(b);
    vstd::arithmetic::div_mod::lemma_fundamental_div_mod(x, d);
    vstd::arithmetic::div_mod::lemma_mod_bound(x, d);
    vstd::arithmetic::div_mod::lemma_div_pos_is_pos(x, d);
    assert(x / d <= x && x % d <= x) by (nonlinear_arith)
        requires
            x >= 0,
            d > 0,
            x == d * (x / d) + x % d,
            0 <= x / d,
            0 <= x % d < d,
    ;
    if d >= 2 && x > 0 {
        assert(x / d < x) by (nonlinear_arith)
            requires
                x > 0,
                d >= 2,
                x == d * (x / d) + x % d,
                0 <= x / d,
                0 <= x % d,
        ;
    }
    if d == 1 {
        assert(x / d == x) by (nonlinear_arith)
            requires
                d == 1,
                x == d * (x / d) + x % d,
                0 <= x % d < d,
        ;
    }
    let q = x / d;
    assert(trunc_div(a, b) == if (a >= 0) == (b > 0) { q } else { -q });
    assert(trunc_rem(a, b) == if a >= 0 { x % d } else { -(x % d) }) by (nonlinear_arith)
        requires
            x == abs_of(a),
            d == abs_of(b),
            b != 0,
            x == d * q + x % d,
            trunc_div(a, b) == if (a >= 0) == (b > 0) { q } else { -q },
            trunc_rem(a, b) == a - b * trunc_div(a, b),
    ;
}

/// The absolute value.
pub open spec fn abs_of(a: int) -> int {
    if a < 0 {
        -a
    } else {
        a
    }
}

/// What an exec step hands back: the next index or the fault, and the
/// number printed.
pub struct RvmStepped {
    pub next: Result<i32, RvmFault>,
    pub printed: Option<i32>,
}

impl RvmStepped {
    /// Whether this is what the outcome `out` hands back.
    pub open spec fn matches_outcome(self, out: StepOutcome) -> bool {
        self.next == out.next && self.printed == out.printed
    }
}

fn stepped(next: Result<i32, RvmFault>) -> (r: RvmStepped)
    ensures
        r.next == next,
        r.printed is None,
{
    RvmStepped { next, printed: None }
}

/// The step that continues at the next index, where there is one.
fn fall_through(idx: i32) -> (r: RvmStepped)
    ensures
        r.next == if idx < i32::MAX {
            Ok::<i32, RvmFault>((idx + 1) as i32)
        } else {
            Err::<i32, RvmFault>(RvmFault::InstructionFault)
        },
        r.printed is None,
{
    if idx < i32::MAX {
        stepped(Ok(idx + 1))
    } else {
        stepped(Err(RvmFault::InstructionFault))
    }
}

impl RvmMem {
    /// Whether `r` is a slot of the register file.
    fn slot(&self, r: i32) -> (s: Option<usize>)
        ensures
            s is Some == has_slot(self@, r),
            s matches Some(i) ==> i == r,
    {
        if r >= 0 && (r as usize) < self.registers.len() {
            Some(r as usize)
        } else {
            None
        }
    }

    fn exec_mov(&mut self, args: &Vec<i32>, idx: i32) -> (r: RvmStepped)
        requires
            idx < i32::MAX,
        ensures
            r.matches_outcome(step_mov(old(self)@, args@, idx)),
            final(self)@ == step_mov(old(self)@, args@, idx).state,
    {
        if args.len() != 2 {
            return stepped(Ok(idx + 1));
        }
        match self.slot(args[0]) {
            None => stepped(Err(RvmFault::RegisterFault)),
            Some(dest) => {
                self.registers.set(dest, RvmRegU::I32(args[1]));
                stepped(Ok(idx + 1))
            },
        }
    }

    fn exec_stack(&mut self, opcode: i32, args: &Vec<i32>, idx: i32) -> (r: RvmStepped)
        requires
            idx < i32::MAX,
        ensures
            r.matches_outcome(step_stack(opcode, old(self)@, args@, idx)),
            final(self)@ == step_stack(opcode, old(self)@, args@, idx).state,
    {
        if opcode == OP_PUSH {
            if args.len() != 1 {
                return stepped(Ok(idx + 1));
            }
            match self.rvm_stack_push(args[0]) {
                Ok(()) => stepped(Ok(idx + 1)),
                Err(fault) => stepped(Err(fault)),
            }
        } else if opcode == OP_PUSHF {
            let flags: i32 = #[verifier::truncate]
            (self.flags as i32);
            match self.rvm_stack_push(flags) {
                Ok(()) => stepped(Ok(idx + 1)),
                Err(fault) => stepped(Err(fault)),
            }
        } else if opcode == OP_POP {
            if args.len() != 1 {
                return stepped(Ok(idx + 1));
            }
            match self.slot(args[0]) {
                None => stepped(Err(RvmFault::RegisterFault)),
                Some(dest) => match self.rvm_stack_pop() {
                    Ok(val) => {
                        self.registers.set(dest, RvmRegU::I32(val));
                        stepped(Ok(idx + 1))
                    },
                    Err(fault) => stepped(Err(fault)),
                },
            }
        } else {
            match self.rvm_stack_pop() {
                Ok(val) => {
                    self.flags = #[verifier::truncate]
                    (val as u32);
                    stepped(Ok(idx + 1))
                },
                Err(fault) => stepped(Err(fault)),
            }
        }
    }

    fn exec_unary(&mut self, opcode: i32, args: &Vec<i32>, idx: i32) -> (r: RvmStepped)
        requires
            idx < i32::MAX,
        ensures
            r.matches_outcome(step_unary(opcode, old(self)@, args@, idx)),
            final(self)@ == step_unary(opcode, old(self)@, args@, idx).state,
    {
        if args.len() != 1 {
            return stepped(Ok(idx + 1));
        }
        match self.slot(args[0]) {
            None => stepped(Err(RvmFault::RegisterFault)),
            Some(reg) => {
                if let RvmRegU::I32(val) = self.registers[reg] {
                    let res: i32 = if opcode == OP_INC {
                        val.wrapping_add(1)
                    } else if opcode == OP_DEC {
                        val.wrapping_sub(1)
                    } else if opcode == OP_NOT {
                        !val
                    } else {
                        self.remainder
                    };
                    self.registers.set(reg, RvmRegU::I32(res));
                }
                stepped(Ok(idx + 1))
            },
        }
    }

    fn exec_binary(&mut self, opcode: i32, args: &Vec<i32>, idx: i32) -> (r: RvmStepped)
        requires
            idx < i32::MAX,
        ensures
            r.matches_outcome(step_binary(opcode, old(self)@, args@, idx)),
            final(self)@ == step_binary(opcode, old(self)@, args@, idx).state,
    {
        if args.len() != 2 {
            return stepped(Ok(idx + 1));
        }
        let src = args[1];
        match self.slot(args[0]) {
            None => stepped(Err(RvmFault::RegisterFault)),
            Some(dest) => {
                if let RvmRegU::I32(val) = self.registers[dest] {
                    proof {
                        lemma_checked_rem(val, src);
                        lemma_checked_div(val, src);
                    }
                    if opcode == OP_MOD {
                        match val.checked_rem(src) {
                            None => {
                                return stepped(Err(RvmFault::ArithmeticFault));
                            },
                            Some(rem) => {
                                self.remainder = rem;
                            },
                        }
                    } else {
                        let res: i32 = if opcode == OP_ADD {
                            val.wrapping_add(src)
                        } else if opcode == OP_SUB {
                            val.wrapping_sub(src)
                        } else if opcode == OP_MUL {
                            val.wrapping_mul(src)
                        } else if opcode == OP_DIV {
                            match val.checked_div(src) {
                                None => {
                                    return stepped(Err(RvmFault::ArithmeticFault));
                                },
                                Some(quot) => quot,
                            }
                        } else if opcode == OP_XOR {
                            val ^ src
                        } else if opcode == OP_OR {
                            val | src
                        } else if opcode == OP_AND {
                            val & src
                        } else if opcode == OP_SHL {
                            val.wrapping_shl(
                                #[verifier::truncate]
                                (src as u32),
                            )
                        } else {
                            val.wrapping_shr(
                                #[verifier::truncate]
                                (src as u32),
                            )
                        };
                        self.registers.set(dest, RvmRegU::I32(res));
                    }
                }
                stepped(Ok(idx + 1))
            },
        }
    }

    fn exec_compare(&mut self, args: &Vec<i32>, idx: i32) -> (r: RvmStepped)
        requires
            idx < i32::MAX,
        ensures
            r.matches_outcome(step_compare(old(self)@, args@, idx)),
            final(self)@ == step_compare(old(self)@, args@, idx).state,
    {
        if args.len() != 2 {
            return stepped(Ok(idx + 1));
        }
        match self.slot(args[0]) {
            None => stepped(Err(RvmFault::RegisterFault)),
            Some(reg1) => {
                if let RvmRegU::I32(val1) = self.registers[reg1] {
                    match self.slot(args[1]) {
                        None => {
                            return stepped(Err(RvmFault::RegisterFault));
                        },
                        Some(reg2) => {
                            if let RvmRegU::I32(val2) = self.registers[reg2] {
                                self.flags = if val1 == val2 {
                                    1
                                } else if val1 > val2 {
                                    2
                                } else {
                                    0
                                };
                            }
                        },
                    }
                }
                stepped(Ok(idx + 1))
            },
        }
    }

    fn exec_transfer(&mut self, opcode: i32, args: &Vec<i32>, idx: i32) -> (r: RvmStepped)
        ensures
            r.matches_outcome(step_transfer(opcode, old(self)@, args@, idx)),
            final(self)@ == step_transfer(opcode, old(self)@, args@, idx).state,
    {
        if opcode == OP_JMP {
            if args.len() == 1 {
                stepped(Ok(args[0]))
            } else {
                fall_through(idx)
            }
        } else if opcode == OP_CALL {
            if args.len() == 1 {
                match self.rvm_stack_push(idx) {
                    Ok(()) => stepped(Ok(args[0])),
                    Err(fault) => stepped(Err(fault)),
                }
            } else {
                fall_through(idx)
            }
        } else if opcode == OP_RET {
            if args.len() == 0 {
                if self.registers.len() <= REG_STACK_TOP {
                    return stepped(Err(RvmFault::RegisterFault));
                }
                let top = self.registers[REG_STACK_TOP];
                match self.rvm_stack_pop() {
                    Ok(from) => {
                        if from < i32::MAX {
                            stepped(Ok(from + 1))
                        } else {
                            // a refused step changes nothing: put the stack top back
                            self.registers.set(REG_STACK_TOP, top);
                            assert(self.registers@ =~= old(self).registers@);
                            stepped(Err(RvmFault::InstructionFault))
                        }
                    },
                    Err(fault) => stepped(Err(fault)),
                }
            } else {
                fall_through(idx)
            }
        } else {
            let taken = if opcode == OP_JE {
                self.flags & 1 != 0
            } else if opcode == OP_JNE {
                self.flags & 1 == 0
            } else if opcode == OP_JG {
                self.flags & 2 != 0
            } else if opcode == OP_JGE {
                self.flags & 3 != 0
            } else if opcode == OP_JL {
                self.flags & 3 == 0
            } else if opcode == OP_JLE {
                self.flags & 2 == 0
            } else {
                false
            };
            if args.len() == 1 && taken {
                stepped(Ok(args[0]))
            } else {
                fall_through(idx)
            }
        }
    }

    fn exec_print(&self, args: &Vec<i32>, idx: i32) -> (r: RvmStepped)
        requires
            idx < i32::MAX,
        ensures
            r.matches_outcome(step_print(self@, args@, idx)),
    {
        if args.len() != 1 {
            return stepped(Ok(idx + 1));
        }
        match self.slot(args[0]) {
            None => stepped(Err(RvmFault::RegisterFault)),
            Some(reg) => {
                if let RvmRegU::I32(val) = self.registers[reg] {
                    RvmStepped { next: Ok(idx + 1), printed: Some(val) }
                } else {
                    stepped(Ok(idx + 1))
                }
            },
        }
    }

    /// Executes one instruction on this machine, as `step_spec` says.
    pub fn rvm_execute(&mut self, opcode: i32, args: &Vec<i32>, idx: i32) -> (r: RvmStepped)
        ensures
            r.matches_outcome(step_spec(opcode, args@, idx, old(self)@)),
            final(self)@ == step_spec(opcode, args@, idx, old(self)@).state,
    {
        if OP_JMP <= opcode && opcode <= OP_JLE {
            self.exec_transfer(opcode, args, idx)
        } else if idx == i32::MAX {
            stepped(Err(RvmFault::InstructionFault))
        } else if opcode == OP_NOP || opcode == OP_INT {
            stepped(Ok(idx + 1))
        } else if opcode == OP_MOV {
            self.exec_mov(args, idx)
        } else if opcode == OP_PUSH || opcode == OP_POP || opcode == OP_PUSHF || opcode
            == OP_POPF {
            self.exec_stack(opcode, args, idx)
        } else if opcode == OP_INC || opcode == OP_DEC || opcode == OP_NOT || opcode == OP_REM {
            self.exec_unary(opcode, args, idx)
        } else if (OP_ADD <= opcode && opcode <= OP_MOD) || (OP_XOR <= opcode && opcode
            <= OP_SHR) {
            self.exec_binary(opcode, args, idx)
        } else if opcode == OP_COMPARE {
            self.exec_compare(args, idx)
        } else if opcode == OP_PRN {
            self.exec_print(args, idx)
        } else {
            stepped(Err(RvmFault::InvalidOpcode))
        }
    }
}

} // verus!
