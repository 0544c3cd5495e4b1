//! Laws of the assembler and of the engine: what holds of every token
//! stream and of every machine state.

use vstd::prelude::*;
use crate::rvm::{at_end, console_after, run_spec, step_at, CtxView, RvmRun};
use crate::rvm_prog::ProgramView;
use crate::rvm_asm::{
    assembled, assembled_ctx, assembles, emit_line, first_mnemonic, fits, instruction_count,
    is_instruction, label_of, label_symbol, labels_pass, labels_start,
    lemma_scan_labels_stops, lemma_scan_line_stops, lemma_scan_operands_stops,
    lemma_scan_program_stops, operand_tokens, program_pass, scan_labels, scan_line, scan_operands,
    scan_program, scan_token, AsmEnv, LabelScan, OperandScan, ProgramScan,
};
use crate::rvm_engine::{compare_flags, falls_through, has_slot, jump_taken, step_spec};
use crate::rvm_htab::Symbol;
use crate::rvm_isa::{
    OP_CALL, OP_COMPARE, OP_END, OP_JE, OP_JG, OP_JGE, OP_JL, OP_JLE, OP_JNE, OP_RET,
};
use crate::rvm_memory::{
    lemma_le_round_trip, le_bytes, pop_spec, push_spec, stack_top, store_le, MachineState,
    RvmFault, RvmRegU, REG_STACK_TOP,
};

verus! {

/// Whether `b` holds every key of `a` with the same symbol.
pub open spec fn extends(a: Map<Seq<char>, Symbol>, b: Map<Seq<char>, Symbol>) -> bool {
    forall|key: Seq<char>| #[trigger]
        a.contains_key(key) ==> b.contains_key(key) && b[key] == a[key]
}

/// A line that was scanned without a duplicate keeps what was there and
/// holds each of its labels at the address of the line.
proof fn lemma_scan_line_keeps(line: Seq<Seq<char>>, n: int, addr: i32, acc: LabelScan)
    requires
        0 <= n <= line.len(),
        !scan_line(line, n, addr, acc).duplicate,
    ensures
        !acc.duplicate,
        extends(acc.labels, scan_line(line, n, addr, acc).labels),
        forall|t: int|
            0 <= t < n && label_of(#[trigger] line[t]) is Some ==> scan_line(
                line,
                n,
                addr,
                acc,
            ).labels.contains_key(label_of(line[t])->Some_0) && scan_line(
                line,
                n,
                addr,
                acc,
            ).labels[label_of(line[t])->Some_0] == label_symbol(addr),
    decreases n,
{
    if n > 0 {
        let prior = scan_line(line, n - 1, addr, acc);
        let after = scan_line(line, n, addr, acc);
        assert(!prior.duplicate);
        lemma_scan_line_keeps(line, n - 1, addr, acc);
        assert(after == scan_token(line[n - 1], addr, prior));
        assert(extends(prior.labels, after.labels));
        assert forall|t: int| 0 <= t < n && label_of(#[trigger] line[t]) is Some implies 
            after.labels.contains_key(label_of(line[t])->Some_0) && after.labels[label_of(
            line[t],
        )->Some_0] == label_symbol(addr) by {
            let name = label_of(line[t])->Some_0;
            if t < n - 1 {
                assert(prior.labels.contains_key(name));
            }
        }
    }
}

/// Lines that were scanned without a duplicate keep what was there and
/// hold each of their labels at the number of instruction lines before it.
proof fn lemma_scan_labels_keeps(tokens: Seq<Seq<Seq<char>>>, n: int, acc: LabelScan)
    requires
        0 <= n <= tokens.len(),
        !scan_labels(tokens, n, acc).duplicate,
    ensures
        !acc.duplicate,
        extends(acc.labels, scan_labels(tokens, n, acc).labels),
        forall|i: int, t: int|
            0 <= i < n && 0 <= t < tokens[i].len() && label_of(#[trigger] tokens[i][t]) is Some
                ==> scan_labels(tokens, n, acc).labels.contains_key(
                label_of(tokens[i][t])->Some_0,
            ) && scan_labels(tokens, n, acc).labels[label_of(tokens[i][t])->Some_0]
                == label_symbol(instruction_count(tokens, i) as i32),
    decreases n,
{
    if n > 0 {
        let prior = scan_labels(tokens, n - 1, acc);
        let after = scan_labels(tokens, n, acc);
        let line = tokens[n - 1];
        let addr = instruction_count(tokens, n - 1) as i32;
        assert(!prior.duplicate);
        lemma_scan_labels_keeps(tokens, n - 1, acc);
        assert(after == scan_line(line, line.len() as int, addr, prior));
        lemma_scan_line_keeps(line, line.len() as int, addr, prior);
        assert forall|i: int, t: int|
            0 <= i < n && 0 <= t < tokens[i].len() && label_of(
                #[trigger] tokens[i][t],
            ) is Some implies after.labels.contains_key(label_of(tokens[i][t])->Some_0)
            && after.labels[label_of(tokens[i][t])->Some_0] == label_symbol(
            instruction_count(tokens, i) as i32,
        ) by {
            let name = label_of(tokens[i][t])->Some_0;
            if i < n - 1 {
                assert(prior.labels.contains_key(name));
            } else {
                assert(label_of(line[t]) is Some);
            }
        }
    }
}

/// A prefix of a scan without a duplicate is without a duplicate.
proof fn lemma_scan_labels_prefix(tokens: Seq<Seq<Seq<char>>>, i: int, n: int, acc: LabelScan)
    requires
        i <= n,
        !scan_labels(tokens, n, acc).duplicate,
    ensures
        !scan_labels(tokens, i, acc).duplicate,
{
    if scan_labels(tokens, i, acc).duplicate {
        lemma_scan_labels_stops(tokens, i, n, acc);
    }
}

/// A prefix of a line scanned without a duplicate is without a duplicate.
proof fn lemma_scan_line_prefix(line: Seq<Seq<char>>, j: int, n: int, addr: i32, acc: LabelScan)
    requires
        j <= n,
        !scan_line(line, n, addr, acc).duplicate,
    ensures
        !scan_line(line, j, addr, acc).duplicate,
{
    if scan_line(line, j, addr, acc).duplicate {
        lemma_scan_line_stops(line, j, n, addr, acc);
    }
}

/// A label that is declared at two places of a token stream makes the
/// first pass fail, whatever else the stream holds.
pub proof fn lemma_duplicate_label_fails(
    ctx: CtxView,
    tokens: Seq<Seq<Seq<char>>>,
    i1: int,
    t1: int,
    i2: int,
    t2: int,
)
    requires
        0 <= i1 < tokens.len() && 0 <= t1 < tokens[i1].len(),
        0 <= i2 < tokens.len() && 0 <= t2 < tokens[i2].len(),
        i1 < i2 || (i1 == i2 && t1 < t2),
        label_of(tokens[i1][t1]) is Some,
        label_of(tokens[i1][t1]) == label_of(tokens[i2][t2]),
    ensures
        labels_pass(ctx, tokens).duplicate,
{
    let acc = labels_start(ctx);
    let n = tokens.len() as int;
    if !scan_labels(tokens, n, acc).duplicate {
        let name = label_of(tokens[i1][t1])->Some_0;
        let line = tokens[i2];
        let addr = instruction_count(tokens, i2) as i32;
        lemma_scan_labels_prefix(tokens, i2 + 1, n, acc);
        lemma_scan_labels_prefix(tokens, i2, n, acc);
        let before = scan_labels(tokens, i2, acc);
        assert(scan_labels(tokens, i2 + 1, acc) == scan_line(
            line,
            line.len() as int,
            addr,
            before,
        ));
        lemma_scan_line_prefix(line, t2 + 1, line.len() as int, addr, before);
        lemma_scan_line_prefix(line, t2, line.len() as int, addr, before);
        let prior = scan_line(line, t2, addr, before);
        lemma_scan_line_keeps(line, t2, addr, before);
        if i1 < i2 {
            lemma_scan_labels_keeps(tokens, i2, acc);
            assert(label_of(tokens[i1][t1]) is Some);
            assert(before.labels.contains_key(name));
        } else {
            assert(label_of(line[t1]) is Some);
        }
        assert(prior.labels.contains_key(name));
        assert(scan_line(line, t2 + 1, addr, before) == scan_token(line[t2], addr, prior));
        assert(false);
    }
}

/// Without a fault, resolving the operands gives one operand for each
/// operand token.
pub proof fn lemma_operands_counted(
    line: Seq<Seq<char>>,
    place: int,
    upto: int,
    env: AsmEnv,
    acc: OperandScan,
)
    requires
        scan_operands(line, place, upto, env, acc).fault is None,
    ensures
        scan_operands(line, place, upto, env, acc).args.len() == acc.args.len() + operand_tokens(
            line,
            place,
            upto,
        ),
    decreases upto,
{
    if !(upto <= place + 1 || upto <= 0) {
        let prior = scan_operands(line, place, upto - 1, env, acc);
        if prior.fault is Some {
            lemma_scan_operands_stops(line, place, upto - 1, upto, env, acc);
        }
        lemma_operands_counted(line, place, upto - 1, env, acc);
    }
}

/// Without a fault, the second pass emits a line exactly when it is an
/// instruction line: the opcode of its first mnemonic, with one operand
/// for each operand token behind it.
pub proof fn lemma_emit_line(line: Seq<Seq<char>>, env: AsmEnv, acc: ProgramScan)
    requires
        emit_line(line, env, acc).fault is None,
    ensures
        emit_line(line, env, acc).instructions == if is_instruction(line) {
            acc.instructions.push(first_mnemonic(line)->Some_0.0)
        } else {
            acc.instructions
        },
        emit_line(line, env, acc).args.len() == emit_line(line, env, acc).instructions.len()
            - acc.instructions.len() + acc.args.len(),
        is_instruction(line) ==> emit_line(line, env, acc).args.last().len() == operand_tokens(
            line,
            first_mnemonic(line)->Some_0.1,
            line.len() as int,
        ),
{
    match first_mnemonic(line) {
        None => {},
        Some((opcode, place)) => {
            let start = OperandScan {
                args: Seq::empty(),
                values: acc.values,
                rejected: acc.rejected,
                fault: None,
            };
            lemma_operands_counted(line, place, line.len() as int, env, start);
        },
    }
}

/// Without a fault, the second pass emits the opcodes of the instruction
/// lines, in order, behind what the program held: the instruction of line
/// `j` stands behind as many instructions as there are instruction lines
/// before line `j`.
pub proof fn lemma_program_emitted(
    tokens: Seq<Seq<Seq<char>>>,
    n: int,
    env: AsmEnv,
    acc: ProgramScan,
)
    requires
        0 <= n <= tokens.len(),
        scan_program(tokens, n, env, acc).fault is None,
    ensures
        acc.fault is None,
        scan_program(tokens, n, env, acc).instructions.len() == acc.instructions.len()
            + instruction_count(tokens, n),
        scan_program(tokens, n, env, acc).args.len() == acc.args.len() + instruction_count(
            tokens,
            n,
        ),
        forall|k: int|
            0 <= k < acc.instructions.len() ==> scan_program(tokens, n, env, acc).instructions[k]
                == acc.instructions[k],
        forall|j: int|
            0 <= j < n && is_instruction(#[trigger] tokens[j]) ==> scan_program(
                tokens,
                n,
                env,
                acc,
            ).instructions[(acc.instructions.len() + instruction_count(tokens, j)) as int]
                == first_mnemonic(tokens[j])->Some_0.0,
        forall|j: int|
            0 <= j < n && is_instruction(#[trigger] tokens[j]) ==> scan_program(
                tokens,
                n,
                env,
                acc,
            ).args[(acc.args.len() + instruction_count(tokens, j)) as int].len()
                == operand_tokens(
                tokens[j],
                first_mnemonic(tokens[j])->Some_0.1,
                tokens[j].len() as int,
            ),
    decreases n,
{
    if n > 0 {
        let prior = scan_program(tokens, n - 1, env, acc);
        let after = scan_program(tokens, n, env, acc);
        if prior.fault is Some {
            lemma_scan_program_stops(tokens, n - 1, n, env, acc);
        }
        lemma_program_emitted(tokens, n - 1, env, acc);
        assert(after == emit_line(tokens[n - 1], env, prior));
        lemma_emit_line(tokens[n - 1], env, prior);
        assert forall|j: int| 0 <= j < n && is_instruction(#[trigger] tokens[j]) implies 
            after.instructions[(acc.instructions.len() + instruction_count(tokens, j)) as int]
            == first_mnemonic(tokens[j])->Some_0.0 by {
            if j < n - 1 {
                lemma_count_grows(tokens, j + 1, n - 1);
                assert(instruction_count(tokens, j + 1) == instruction_count(tokens, j) + 1);
                let at = (acc.instructions.len() + instruction_count(tokens, j)) as int;
                assert(after.instructions[at] == prior.instructions[at]);
            }
        }
        assert forall|j: int| 0 <= j < n && is_instruction(#[trigger] tokens[j]) implies 
            after.args[(acc.args.len() + instruction_count(tokens, j)) as int].len()
            == operand_tokens(
            tokens[j],
            first_mnemonic(tokens[j])->Some_0.1,
            tokens[j].len() as int,
        ) by {
            let at = (acc.args.len() + instruction_count(tokens, j)) as int;
            if j < n - 1 {
                lemma_count_grows(tokens, j + 1, n - 1);
                assert(instruction_count(tokens, j + 1) == instruction_count(tokens, j) + 1);
                assert(after.args[at] == prior.args[at]);
            } else {
                assert(at == after.args.len() - 1);
            }
        }
    }
}

/// The second pass, line by line. Take a token stream that the second
/// pass gets through in a context whose program has as many operand lists
/// as instructions. The program then holds one instruction more for every
/// instruction line; the instruction of an instruction line `j` stands
/// behind as many new instructions as there are instruction lines before
/// it, with the opcode of the line's first mnemonic and one operand for
/// every non-empty token behind that mnemonic.
pub proof fn lemma_second_pass_lines(ctx: CtxView, tokens: Seq<Seq<Seq<char>>>, j: int)
    requires
        ctx.prog.instructions.len() == ctx.prog.args.len(),
        program_pass(ctx, tokens).fault is None,
        0 <= j < tokens.len(),
        is_instruction(tokens[j]),
    ensures
        program_pass(ctx, tokens).instructions.len() == ctx.prog.instructions.len()
            + instruction_count(tokens, tokens.len() as int),
        instruction_count(tokens, j) < instruction_count(tokens, tokens.len() as int),
        program_pass(ctx, tokens).instructions[(ctx.prog.instructions.len() + instruction_count(
            tokens,
            j,
        )) as int] == first_mnemonic(tokens[j])->Some_0.0,
        program_pass(ctx, tokens).args[(ctx.prog.instructions.len() + instruction_count(
            tokens,
            j,
        )) as int].len() == operand_tokens(
            tokens[j],
            first_mnemonic(tokens[j])->Some_0.1,
            tokens[j].len() as int,
        ),
{
    let init = ProgramScan {
        instructions: ctx.prog.instructions,
        args: ctx.prog.args,
        values: ctx.prog.values,
        rejected: ctx.rejected,
        fault: None,
    };
    lemma_program_emitted(tokens, tokens.len() as int, crate::rvm_asm::env_of(ctx), init);
    lemma_count_grows(tokens, j + 1, tokens.len() as int);
    assert(is_instruction(tokens[j]));
}

/// The number of instruction lines grows with the number of lines.
pub proof fn lemma_count_grows(tokens: Seq<Seq<Seq<char>>>, a: int, b: int)
    requires
        a <= b,
    ensures
        instruction_count(tokens, a) <= instruction_count(tokens, b),
    decreases b - a,
{
    if a < b {
        lemma_count_grows(tokens, a, b - 1);
    }
}

/// Lines that are no instruction lines do not count.
pub proof fn lemma_count_skips(tokens: Seq<Seq<Seq<char>>>, a: int, b: int)
    requires
        0 <= a <= b,
        forall|k: int| a <= k < b ==> !is_instruction(#[trigger] tokens[k]),
    ensures
        instruction_count(tokens, a) == instruction_count(tokens, b),
    decreases b - a,
{
    if a < b {
        lemma_count_skips(tokens, a, b - 1);
    }
}

/// Labels and addresses are aligned. Take a token stream that both passes
/// get through, the second one into an empty program. A label declared on
/// line `i` has as its address the number of instruction lines before
/// line `i`; and where line `j` is the first instruction line at or behind
/// line `i`, the program holds the opcode of line `j` at that address.
pub proof fn lemma_label_alignment(
    first: CtxView,
    second: CtxView,
    tokens: Seq<Seq<Seq<char>>>,
    i: int,
    t: int,
    j: int,
)
    requires
        tokens.len() <= i32::MAX,
        0 <= i < tokens.len() && 0 <= t < tokens[i].len(),
        label_of(tokens[i][t]) is Some,
        !labels_pass(first, tokens).duplicate,
        second.prog.instructions.len() == 0,
        program_pass(second, tokens).fault is None,
        i <= j < tokens.len(),
        is_instruction(tokens[j]),
        forall|k: int| i <= k < j ==> !is_instruction(#[trigger] tokens[k]),
    ensures
        labels_pass(first, tokens).labels.contains_key(label_of(tokens[i][t])->Some_0),
        labels_pass(first, tokens).labels[label_of(tokens[i][t])->Some_0].value
            == instruction_count(tokens, i),
        instruction_count(tokens, i) < program_pass(second, tokens).instructions.len(),
        program_pass(second, tokens).instructions[instruction_count(tokens, i) as int]
            == first_mnemonic(tokens[j])->Some_0.0,
{
    let n = tokens.len() as int;
    let acc = labels_start(first);
    lemma_scan_labels_keeps(tokens, n, acc);
    assert(label_of(tokens[i][t]) is Some);
    crate::rvm_asm::lemma_instruction_count_bound(tokens, i);
    let init = ProgramScan {
        instructions: second.prog.instructions,
        args: second.prog.args,
        values: second.prog.values,
        rejected: second.rejected,
        fault: None,
    };
    lemma_program_emitted(tokens, n, crate::rvm_asm::env_of(second), init);
    lemma_count_skips(tokens, i, j);
    lemma_count_grows(tokens, j + 1, n);
    assert(is_instruction(tokens[j]));
}

/// A label behind the last instruction line has the index of the end
/// marker as its address.
pub proof fn lemma_trailing_label(
    first: CtxView,
    second: CtxView,
    tokens: Seq<Seq<Seq<char>>>,
    i: int,
    t: int,
)
    requires
        tokens.len() <= i32::MAX,
        0 <= i < tokens.len() && 0 <= t < tokens[i].len(),
        label_of(tokens[i][t]) is Some,
        !labels_pass(first, tokens).duplicate,
        second.prog.instructions.len() == 0,
        program_pass(second, tokens).fault is None,
        forall|k: int| i <= k < tokens.len() ==> !is_instruction(#[trigger] tokens[k]),
    ensures
        labels_pass(first, tokens).labels.contains_key(label_of(tokens[i][t])->Some_0),
        labels_pass(first, tokens).labels[label_of(tokens[i][t])->Some_0].value
            == program_pass(second, tokens).instructions.len(),
        assembled(program_pass(second, tokens)).0[program_pass(
            second,
            tokens,
        ).instructions.len() as int] == OP_END,
{
    let n = tokens.len() as int;
    let acc = labels_start(first);
    lemma_scan_labels_keeps(tokens, n, acc);
    assert(label_of(tokens[i][t]) is Some);
    crate::rvm_asm::lemma_instruction_count_bound(tokens, i);
    let init = ProgramScan {
        instructions: second.prog.instructions,
        args: second.prog.args,
        values: second.prog.values,
        rejected: second.rejected,
        fault: None,
    };
    lemma_program_emitted(tokens, n, crate::rvm_asm::env_of(second), init);
    lemma_count_skips(tokens, i, n);
}

/// The two arrays of an assembled program have the same length, and the
/// program ends in the end marker.
pub proof fn lemma_program_shape(ctx: CtxView, tokens: Seq<Seq<Seq<char>>>)
    requires
        ctx.prog.instructions.len() == ctx.prog.args.len(),
        program_pass(ctx, tokens).fault is None,
    ensures
        assembled(program_pass(ctx, tokens)).0.len() == assembled(
            program_pass(ctx, tokens),
        ).1.len(),
        assembled(program_pass(ctx, tokens)).0.len() == ctx.prog.instructions.len()
            + instruction_count(tokens, tokens.len() as int) + 1,
        assembled(program_pass(ctx, tokens)).0.last() == OP_END,
{
    let init = ProgramScan {
        instructions: ctx.prog.instructions,
        args: ctx.prog.args,
        values: ctx.prog.values,
        rejected: ctx.rejected,
        fault: None,
    };
    lemma_program_emitted(tokens, tokens.len() as int, crate::rvm_asm::env_of(ctx), init);
}

/// Assembling is a function of what the context shows and of the token
/// stream: two contexts that show the same give the same labels, the same
/// entry point, the same instructions, operands and pool, and the same
/// verdict.
pub proof fn lemma_assembly_is_deterministic(a: CtxView, b: CtxView, tokens: Seq<Seq<Seq<char>>>)
    requires
        a == b,
    ensures
        labels_pass(a, tokens) == labels_pass(b, tokens),
        program_pass(a, tokens) == program_pass(b, tokens),
        assembled(program_pass(a, tokens)) == assembled(program_pass(b, tokens)),
{
}

/// A call, at any index. Where the stack-top register holds an address
/// `sp` with four bytes of memory below it, `call target` at `idx` goes to
/// `target`, stores the index `idx` in the four bytes below `sp`, lowers
/// the stack top by four, and leaves the other registers, the flags and
/// the remainder alone.
pub proof fn lemma_call_step(m: MachineState, target: i32, idx: i32)
    requires
        stack_top(m) is Some,
        4 <= stack_top(m)->Some_0 <= m.memory.len(),
    ensures
        step_spec(OP_CALL, seq![target], idx, m).next == Ok::<i32, RvmFault>(target),
        step_spec(OP_CALL, seq![target], idx, m).printed is None,
        step_spec(OP_CALL, seq![target], idx, m).state == (MachineState {
            memory: store_le(m.memory, stack_top(m)->Some_0 - 4, idx),
            registers: m.registers.update(
                REG_STACK_TOP as int,
                RvmRegU::I32ADDR((stack_top(m)->Some_0 - 4) as i32),
            ),
            ..m
        }),
{
}

/// A call and the return that pairs with it, at any indices. After a call
/// at `idx`, a return that finds the stack top and the bytes at it as the
/// call left them continues at `idx + 1` and gives the stack top back. Only
/// behind the last index that 32 bits can hold there is nothing to continue
/// at: there the return is refused.
pub proof fn lemma_call_then_return(
    m: MachineState,
    target: i32,
    idx: i32,
    later: MachineState,
    at: i32,
)
    requires
        stack_top(m) is Some,
        step_spec(OP_CALL, seq![target], idx, m).next is Ok,
        stack_top(later) == stack_top(step_spec(OP_CALL, seq![target], idx, m).state),
        stack_top(m)->Some_0 <= later.memory.len(),
        later.memory.subrange(stack_top(later)->Some_0 as int, stack_top(later)->Some_0 + 4)
            == step_spec(OP_CALL, seq![target], idx, m).state.memory.subrange(
            stack_top(later)->Some_0 as int,
            stack_top(later)->Some_0 + 4,
        ),
    ensures
        step_spec(OP_CALL, seq![target], idx, m).next == Ok::<i32, RvmFault>(target),
        step_spec(OP_RET, Seq::empty(), at, later).next == if idx < i32::MAX {
            Ok::<i32, RvmFault>((idx + 1) as i32)
        } else {
            Err::<i32, RvmFault>(RvmFault::InstructionFault)
        },
        idx < i32::MAX ==> stack_top(step_spec(OP_RET, Seq::empty(), at, later).state)
            == stack_top(m),
{
    let sp = stack_top(m)->Some_0;
    let called = step_spec(OP_CALL, seq![target], idx, m).state;
    assert(push_spec(m, idx) is Ok);
    assert(called == push_spec(m, idx)->Ok_0);
    lemma_le_round_trip(idx);
    assert(stack_top(called) == Some((sp - 4) as i32));
    assert(called.memory.subrange(sp - 4, sp as int) =~= le_bytes(idx));
    assert(pop_spec(later) is Ok);
}

/// Stack discipline: two pushes followed by two pops give the values
/// back, last pushed first, and put the stack top where it was.
pub proof fn lemma_stack_discipline(m: MachineState, a: i32, b: i32)
    requires
        stack_top(m) is Some,
        push_spec(m, a) is Ok,
        push_spec(push_spec(m, a)->Ok_0, b) is Ok,
    ensures
        pop_spec(push_spec(push_spec(m, a)->Ok_0, b)->Ok_0) is Ok,
        pop_spec(push_spec(push_spec(m, a)->Ok_0, b)->Ok_0)->Ok_0.0 == b,
        pop_spec(pop_spec(push_spec(push_spec(m, a)->Ok_0, b)->Ok_0)->Ok_0.1) is Ok,
        pop_spec(pop_spec(push_spec(push_spec(m, a)->Ok_0, b)->Ok_0)->Ok_0.1)->Ok_0.0 == a,
        pop_spec(
            pop_spec(push_spec(push_spec(m, a)->Ok_0, b)->Ok_0)->Ok_0.1,
        )->Ok_0.1.registers == m.registers,
{
    let sp = stack_top(m)->Some_0;
    let one = push_spec(m, a)->Ok_0;
    let two = push_spec(one, b)->Ok_0;
    lemma_le_round_trip(a);
    lemma_le_round_trip(b);
    assert(stack_top(one) == Some((sp - 4) as i32));
    assert(stack_top(two) == Some((sp - 8) as i32));
    assert(two.memory.subrange(sp - 8, sp - 4) =~= le_bytes(b));
    assert(two.memory.subrange(sp - 4, sp as int) =~= le_bytes(a));
    let back = pop_spec(two)->Ok_0.1;
    assert(back.memory == two.memory);
    assert(stack_top(back) == Some((sp - 4) as i32));
    let last = pop_spec(back)->Ok_0.1;
    assert(last.registers =~= m.registers);
}

/// A run that pauses and is resumed is the run with the fuel of both: the
/// machine may be run in portions.
pub proof fn lemma_resumed_run(
    prog: ProgramView,
    m: MachineState,
    console: Seq<i32>,
    idx: i32,
    fuel: nat,
    more: nat,
)
    ensures
        run_spec(prog, m, console, idx, fuel + more) == match run_spec(
            prog,
            m,
            console,
            idx,
            fuel,
        ).end {
            RvmRun::OutOfFuel { next } => run_spec(
                prog,
                run_spec(prog, m, console, idx, fuel).state,
                run_spec(prog, m, console, idx, fuel).console,
                next,
                more,
            ),
            _ => run_spec(prog, m, console, idx, fuel),
        },
    decreases fuel,
{
    if !at_end(prog, idx) && fuel > 0 {
        let out = step_at(prog, m, idx);
        if let Ok(next) = out.next {
            lemma_resumed_run(
                prog,
                out.state,
                console_after(console, out),
                next,
                (fuel - 1) as nat,
                more,
            );
        }
    }
}

/// A run prints in order: what was on the console stays in front.
pub proof fn lemma_run_keeps_console(
    prog: ProgramView,
    m: MachineState,
    console: Seq<i32>,
    idx: i32,
    fuel: nat,
)
    ensures
        console.is_prefix_of(run_spec(prog, m, console, idx, fuel).console),
    decreases fuel,
{
    if !at_end(prog, idx) && fuel > 0 {
        let out = step_at(prog, m, idx);
        if let Ok(next) = out.next {
            lemma_run_keeps_console(
                prog,
                out.state,
                console_after(console, out),
                next,
                (fuel - 1) as nat,
            );
        }
    }
}

/// The conditional jumps mean what their names say: under the flags that
/// comparing `a` with `b` leaves, `je` is taken on `a == b`, `jne` on
/// `a != b`, `jg` on `a > b`, `jge` on `a >= b`, `jl` on `a < b` and `jle` on
/// `a <= b`.
pub proof fn lemma_jumps_follow_comparison(a: i32, b: i32)
    ensures
        jump_taken(OP_JE, compare_flags(a, b)) <==> a == b,
        jump_taken(OP_JNE, compare_flags(a, b)) <==> a != b,
        jump_taken(OP_JG, compare_flags(a, b)) <==> a > b,
        jump_taken(OP_JGE, compare_flags(a, b)) <==> a >= b,
        jump_taken(OP_JL, compare_flags(a, b)) <==> a < b,
        jump_taken(OP_JLE, compare_flags(a, b)) <==> a <= b,
{
    assert(0u32 & 1 == 0 && 0u32 & 2 == 0 && 0u32 & 3 == 0) by (bit_vector);
    assert(1u32 & 1 == 1 && 1u32 & 2 == 0 && 1u32 & 3 == 1) by (bit_vector);
    assert(2u32 & 1 == 0 && 2u32 & 2 == 2 && 2u32 & 3 == 2) by (bit_vector);
}

/// A conditional jump, at any index and in any state: with one operand it
/// goes to its target exactly when its test of the flags holds, and falls
/// through otherwise; it changes nothing and prints nothing.
pub proof fn lemma_conditional_jump(m: MachineState, opcode: i32, target: i32, at: i32)
    requires
        OP_JE <= opcode <= OP_JLE,
    ensures
        step_spec(opcode, seq![target], at, m).state == m,
        step_spec(opcode, seq![target], at, m).printed is None,
        step_spec(opcode, seq![target], at, m).next == if jump_taken(opcode, m.flags) {
            Ok::<i32, RvmFault>(target)
        } else {
            falls_through(m, at).next
        },
        (opcode == OP_JE ==> (jump_taken(opcode, m.flags) <==> m.flags & 1 != 0)),
        (opcode == OP_JNE ==> (jump_taken(opcode, m.flags) <==> m.flags & 1 == 0)),
        (opcode == OP_JG ==> (jump_taken(opcode, m.flags) <==> m.flags & 2 != 0)),
        (opcode == OP_JGE ==> (jump_taken(opcode, m.flags) <==> m.flags & 3 != 0)),
        (opcode == OP_JL ==> (jump_taken(opcode, m.flags) <==> m.flags & 3 == 0)),
        (opcode == OP_JLE ==> (jump_taken(opcode, m.flags) <==> m.flags & 2 == 0)),
{
}

/// A comparison followed by a conditional jump: where slots `x` and `y`
/// hold the plain integers `a` and `b`, the jump that follows `cmp x, y`
/// goes to its target exactly when its condition holds of `a` and `b`, and
/// falls through otherwise; it changes nothing. The comparison stands at
/// an index that has a next one; the jump stands anywhere.
pub proof fn lemma_compare_then_jump(
    m: MachineState,
    x: i32,
    y: i32,
    a: i32,
    b: i32,
    opcode: i32,
    target: i32,
    idx: i32,
    at: i32,
)
    requires
        idx < i32::MAX,
        OP_JE <= opcode <= OP_JLE,
        has_slot(m, x) && m.registers[x as int] == RvmRegU::I32(a),
        has_slot(m, y) && m.registers[y as int] == RvmRegU::I32(b),
    ensures
        step_spec(OP_COMPARE, seq![x, y], idx, m).next == Ok::<i32, RvmFault>((idx + 1) as i32),
        step_spec(OP_COMPARE, seq![x, y], idx, m).state == (MachineState {
            flags: compare_flags(a, b),
            ..m
        }),
        step_spec(
            opcode,
            seq![target],
            at,
            step_spec(OP_COMPARE, seq![x, y], idx, m).state,
        ).state == step_spec(OP_COMPARE, seq![x, y], idx, m).state,
        step_spec(
            opcode,
            seq![target],
            at,
            step_spec(OP_COMPARE, seq![x, y], idx, m).state,
        ).next == if jump_condition(opcode, a, b) {
            Ok::<i32, RvmFault>(target)
        } else {
            falls_through(m, at).next
        },
{
    lemma_jumps_follow_comparison(a, b);
}

/// The condition that a conditional jump is named for.
pub open spec fn jump_condition(opcode: i32, a: i32, b: i32) -> bool {
    if opcode == OP_JE {
        a == b
    } else if opcode == OP_JNE {
        a != b
    } else if opcode == OP_JG {
        a > b
    } else if opcode == OP_JGE {
        a >= b
    } else if opcode == OP_JL {
        a < b
    } else {
        a <= b
    }
}

/// Whether the token at line `i`, position `t` declares the label `name`.
pub open spec fn declares(tokens: Seq<Seq<Seq<char>>>, i: int, t: int, name: Seq<char>) -> bool {
    0 <= i < tokens.len() && 0 <= t < tokens[i].len() && label_of(tokens[i][t]) == Some(name)
}

/// Whether some label is declared at two places of the token stream.
pub open spec fn declared_twice(tokens: Seq<Seq<Seq<char>>>) -> bool {
    exists|i1: int, t1: int, i2: int, t2: int, name: Seq<char>|
        (i1 < i2 || (i1 == i2 && t1 < t2)) && #[trigger] declares(tokens, i1, t1, name)
            && #[trigger] declares(tokens, i2, t2, name)
}

/// Whether the table holds a label that the token stream declares.
pub open spec fn declared_already(
    labels: Map<Seq<char>, Symbol>,
    tokens: Seq<Seq<Seq<char>>>,
) -> bool {
    exists|i: int, t: int, name: Seq<char>|
        #[trigger] declares(tokens, i, t, name) && labels.contains_key(name)
}

/// A line adds no label but those that it declares.
proof fn lemma_scan_line_keys(
    tokens: Seq<Seq<Seq<char>>>,
    i: int,
    n: int,
    addr: i32,
    acc: LabelScan,
    key: Seq<char>,
)
    requires
        0 <= i < tokens.len(),
        0 <= n <= tokens[i].len(),
        scan_line(tokens[i], n, addr, acc).labels.contains_key(key),
    ensures
        acc.labels.contains_key(key) || exists|t: int|
            0 <= t < n && #[trigger] declares(tokens, i, t, key),
    decreases n,
{
    if n > 0 {
        let prior = scan_line(tokens[i], n - 1, addr, acc);
        if prior.labels.contains_key(key) {
            lemma_scan_line_keys(tokens, i, n - 1, addr, acc, key);
            if !acc.labels.contains_key(key) {
                let t = choose|t: int| 0 <= t < n - 1 && #[trigger] declares(tokens, i, t, key);
                assert(0 <= t < n && declares(tokens, i, t, key));
            }
        } else {
            // the key came with the last token
            assert(!prior.duplicate);
            assert(declares(tokens, i, n - 1, key));
        }
    }
}

/// The lines add no label but those that they declare.
proof fn lemma_scan_labels_keys(
    tokens: Seq<Seq<Seq<char>>>,
    n: int,
    acc: LabelScan,
    key: Seq<char>,
)
    requires
        0 <= n <= tokens.len(),
        scan_labels(tokens, n, acc).labels.contains_key(key),
    ensures
        acc.labels.contains_key(key) || exists|i: int, t: int|
            0 <= i < n && #[trigger] declares(tokens, i, t, key),
    decreases n,
{
    if n > 0 {
        let prior = scan_labels(tokens, n - 1, acc);
        if prior.labels.contains_key(key) {
            lemma_scan_labels_keys(tokens, n - 1, acc, key);
            if !acc.labels.contains_key(key) {
                let (i, t) = choose|i: int, t: int|
                    0 <= i < n - 1 && #[trigger] declares(tokens, i, t, key);
                assert(0 <= i < n && declares(tokens, i, t, key));
            }
        } else {
            assert(!prior.duplicate);
            let line = tokens[n - 1];
            let addr = instruction_count(tokens, n - 1) as i32;
            lemma_scan_line_keys(tokens, n - 1, line.len() as int, addr, prior, key);
            let t = choose|t: int|
                0 <= t < line.len() && #[trigger] declares(tokens, n - 1, t, key);
            assert(0 <= n - 1 < n && declares(tokens, n - 1, t, key));
        }
    }
}

/// Where no label is declared twice and none is in the table already, the
/// first `n` tokens of line `i` are scanned without a duplicate.
proof fn lemma_distinct_line(tokens: Seq<Seq<Seq<char>>>, i: int, n: int, acc: LabelScan)
    requires
        0 <= i < tokens.len(),
        0 <= n <= tokens[i].len(),
        !declared_twice(tokens),
        !declared_already(acc.labels, tokens),
        !scan_labels(tokens, i, acc).duplicate,
    ensures
        !scan_line(
            tokens[i],
            n,
            instruction_count(tokens, i) as i32,
            scan_labels(tokens, i, acc),
        ).duplicate,
    decreases n,
{
    if n > 0 {
        let line = tokens[i];
        let addr = instruction_count(tokens, i) as i32;
        let before = scan_labels(tokens, i, acc);
        lemma_distinct_line(tokens, i, n - 1, acc);
        let prior = scan_line(line, n - 1, addr, before);
        if let Some(name) = label_of(line[n - 1]) {
            assert(declares(tokens, i, n - 1, name));
            if prior.labels.contains_key(name) {
                lemma_scan_line_keys(tokens, i, n - 1, addr, before, name);
                if before.labels.contains_key(name) {
                    lemma_scan_labels_keys(tokens, i, acc, name);
                    if acc.labels.contains_key(name) {
                        assert(declared_already(acc.labels, tokens));
                    } else {
                        let (i0, t0) = choose|i0: int, t0: int|
                            0 <= i0 < i && #[trigger] declares(tokens, i0, t0, name);
                        assert(declares(tokens, i0, t0, name) && declares(tokens, i, n - 1, name));
                        assert(declared_twice(tokens));
                    }
                } else {
                    let t0 = choose|t0: int|
                        0 <= t0 < n - 1 && #[trigger] declares(tokens, i, t0, name);
                    assert(declares(tokens, i, t0, name) && declares(tokens, i, n - 1, name));
                    assert(declared_twice(tokens));
                }
            }
        }
    }
}

/// Where no label is declared twice and none is in the table already, the
/// first `n` lines are scanned without a duplicate.
proof fn lemma_distinct_lines(tokens: Seq<Seq<Seq<char>>>, n: int, acc: LabelScan)
    requires
        0 <= n <= tokens.len(),
        !acc.duplicate,
        !declared_twice(tokens),
        !declared_already(acc.labels, tokens),
    ensures
        !scan_labels(tokens, n, acc).duplicate,
    decreases n,
{
    if n > 0 {
        lemma_distinct_lines(tokens, n - 1, acc);
        lemma_distinct_line(tokens, n - 1, tokens[n - 1].len() as int, acc);
    }
}

/// The first pass meets a duplicate exactly when a label is declared twice
/// or is in the table already. On an empty table, as a new context has it,
/// the pass goes through exactly when the declared names are pairwise
/// different.
pub proof fn lemma_labels_fail_iff_declared_twice(ctx: CtxView, tokens: Seq<Seq<Seq<char>>>)
    ensures
        labels_pass(ctx, tokens).duplicate <==> declared_twice(tokens) || declared_already(
            ctx.prog.labels,
            tokens,
        ),
        ctx.prog.labels == Map::<Seq<char>, Symbol>::empty() ==> (labels_pass(
            ctx,
            tokens,
        ).duplicate <==> declared_twice(tokens)),
{
    let acc = labels_start(ctx);
    let n = tokens.len() as int;
    if declared_twice(tokens) {
        let (i1, t1, i2, t2, name) = choose|i1: int, t1: int, i2: int, t2: int, name: Seq<char>|
            (i1 < i2 || (i1 == i2 && t1 < t2)) && #[trigger] declares(tokens, i1, t1, name)
                && #[trigger] declares(tokens, i2, t2, name);
        lemma_duplicate_label_fails(ctx, tokens, i1, t1, i2, t2);
    } else if declared_already(ctx.prog.labels, tokens) {
        let (i, t, name) = choose|i: int, t: int, name: Seq<char>|
            #[trigger] declares(tokens, i, t, name) && ctx.prog.labels.contains_key(name);
        if !scan_labels(tokens, n, acc).duplicate {
            // the table keeps the label up to its declaration, which then fails
            let line = tokens[i];
            let addr = instruction_count(tokens, i) as i32;
            lemma_scan_labels_prefix(tokens, i + 1, n, acc);
            lemma_scan_labels_prefix(tokens, i, n, acc);
            let before = scan_labels(tokens, i, acc);
            lemma_scan_labels_keeps(tokens, i, acc);
            lemma_scan_line_prefix(line, t + 1, line.len() as int, addr, before);
            lemma_scan_line_prefix(line, t, line.len() as int, addr, before);
            lemma_scan_line_keeps(line, t, addr, before);
            let prior = scan_line(line, t, addr, before);
            assert(before.labels.contains_key(name));
            assert(prior.labels.contains_key(name));
            assert(scan_line(line, t + 1, addr, before) == scan_token(line[t], addr, prior));
            assert(false);
        }
    } else {
        lemma_distinct_lines(tokens, n, acc);
    }
    if ctx.prog.labels == Map::<Seq<char>, Symbol>::empty() {
        assert(!declared_already(ctx.prog.labels, tokens));
    }
}

/// A label that is declared twice stops assembly before the second pass:
/// the stream does not assemble, and the program, the machine state and
/// the console are as they were.
pub proof fn lemma_duplicate_label_stops_assembly(
    ctx: CtxView,
    count: nat,
    tokens: Seq<Seq<Seq<char>>>,
)
    requires
        declared_twice(tokens),
    ensures
        !assembles(ctx, count, tokens),
        assembled_ctx(ctx, count, tokens).prog.instructions == ctx.prog.instructions,
        assembled_ctx(ctx, count, tokens).prog.args == ctx.prog.args,
        assembled_ctx(ctx, count, tokens).prog.values == ctx.prog.values,
        assembled_ctx(ctx, count, tokens).mem == ctx.mem,
        assembled_ctx(ctx, count, tokens).console == ctx.console,
{
    lemma_labels_fail_iff_declared_twice(ctx, tokens);
}

/// The status of the first pass on an empty label table, as a new context
/// has it: the pass goes through exactly when the stream fits and declares
/// no label twice.
pub proof fn lemma_first_pass_goes_through(
    ctx: CtxView,
    count: nat,
    tokens: Seq<Seq<Seq<char>>>,
)
    requires
        ctx.prog.labels == Map::<Seq<char>, Symbol>::empty(),
    ensures
        (fits(count, tokens) && !labels_pass(ctx, tokens).duplicate) <==> (fits(count, tokens)
            && !declared_twice(tokens)),
{
    lemma_labels_fail_iff_declared_twice(ctx, tokens);
}

/// The culprit of a line: where the scan of a line ends on a duplicate,
/// it names a label that the line declares.
proof fn lemma_line_culprit(
    tokens: Seq<Seq<Seq<char>>>,
    i: int,
    n: int,
    addr: i32,
    acc: LabelScan,
)
    requires
        0 <= i < tokens.len(),
        0 <= n <= tokens[i].len(),
        !acc.duplicate,
        acc.culprit is None,
    ensures
        scan_line(tokens[i], n, addr, acc).duplicate <==> scan_line(
            tokens[i],
            n,
            addr,
            acc,
        ).culprit is Some,
        scan_line(tokens[i], n, addr, acc).culprit matches Some(name) ==> exists|t: int|
            0 <= t < n && #[trigger] declares(tokens, i, t, name),
    decreases n,
{
    if n > 0 {
        lemma_line_culprit(tokens, i, n - 1, addr, acc);
        let prior = scan_line(tokens[i], n - 1, addr, acc);
        let after = scan_line(tokens[i], n, addr, acc);
        if prior.duplicate {
            let name = prior.culprit->Some_0;
            let t = choose|t: int| 0 <= t < n - 1 && #[trigger] declares(tokens, i, t, name);
            assert(0 <= t < n && declares(tokens, i, t, name));
        } else if after.duplicate {
            let name = after.culprit->Some_0;
            assert(declares(tokens, i, n - 1, name));
        }
    }
}

/// The culprit of the first pass: the pass fails on a duplicate exactly
/// when it names a culprit, and the culprit is a label that the token
/// stream declares.
pub proof fn lemma_culprit_is_declared(ctx: CtxView, tokens: Seq<Seq<Seq<char>>>, n: int)
    requires
        0 <= n <= tokens.len(),
    ensures
        scan_labels(tokens, n, labels_start(ctx)).duplicate <==> scan_labels(
            tokens,
            n,
            labels_start(ctx),
        ).culprit is Some,
        scan_labels(tokens, n, labels_start(ctx)).culprit matches Some(name) ==> exists|
            i: int,
            t: int,
        | 0 <= i < n && #[trigger] declares(tokens, i, t, name),
    decreases n,
{
    if n > 0 {
        let acc = labels_start(ctx);
        lemma_culprit_is_declared(ctx, tokens, n - 1);
        let prior = scan_labels(tokens, n - 1, acc);
        let after = scan_labels(tokens, n, acc);
        if prior.duplicate {
            let name = prior.culprit->Some_0;
            let (i, t) = choose|i: int, t: int|
                0 <= i < n - 1 && #[trigger] declares(tokens, i, t, name);
            assert(0 <= i < n && declares(tokens, i, t, name));
        } else {
            let line = tokens[n - 1];
            let addr = instruction_count(tokens, n - 1) as i32;
            lemma_line_culprit(tokens, n - 1, line.len() as int, addr, prior);
            if after.duplicate {
                let name = after.culprit->Some_0;
                let t = choose|t: int|
                    0 <= t < line.len() && #[trigger] declares(tokens, n - 1, t, name);
                assert(0 <= n - 1 < n && declares(tokens, n - 1, t, name));
            }
        }
    }
}

} // verus!
