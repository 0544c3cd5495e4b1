//! The assembler: what the two passes make of a token stream.
//!
//! A source line is a sequence of tokens, and a line is an instruction line
//! when one of its tokens is a mnemonic. The first pass gives every label
//! the number of instruction lines before it as its address; the second
//! pass emits one instruction for every instruction line, with the
//! operands that follow the mnemonic, be there none. So a label always
//! names the instruction that follows it.

use vstd::prelude::*;
use crate::rvm::CtxView;
use crate::rvm_htab::{Symbol, HTAB_MAX_ENTRIES};
use crate::rvm_prog::ProgramView;
use crate::rvm_isa::{opcode_of, slot_of, OP_END};
use crate::rvm_literal::{index_of, literal_value, parse_literal};
use crate::rvm_memory::{RvmFault, RvmRegU};

verus! {

/// The name that a token declares as a label: a token that ends in `:`
/// declares what stands before the colon.
pub open spec fn label_of(tok: Seq<char>) -> Option<Seq<char>> {
    if tok.len() > 0 && tok.last() == ':' {
        Some(tok.drop_last())
    } else {
        None
    }
}

/// The first mnemonic of a line at or after position `from`: its opcode
/// and its position.
pub open spec fn mnemonic_from(line: Seq<Seq<char>>, from: int) -> Option<(i32, int)>
    decreases line.len() - from,
{
    if from < 0 || from >= line.len() {
        None
    } else if line[from].len() > 0 && opcode_of(line[from]) is Some {
        Some((opcode_of(line[from])->Some_0, from))
    } else {
        mnemonic_from(line, from + 1)
    }
}

/// The first mnemonic of a line: its opcode and its position.
pub open spec fn first_mnemonic(line: Seq<Seq<char>>) -> Option<(i32, int)> {
    mnemonic_from(line, 0)
}

/// The number of operand tokens: the non-empty tokens at the positions
/// between `place` and `upto`, both excluded.
pub open spec fn operand_tokens(line: Seq<Seq<char>>, place: int, upto: int) -> nat
    decreases upto,
{
    if upto <= place + 1 || upto <= 0 {
        0
    } else {
        operand_tokens(line, place, upto - 1) + if line[upto - 1].len() > 0 {
            1nat
        } else {
            0nat
        }
    }
}

/// A line is an instruction line when one of its tokens is a mnemonic.
pub open spec fn is_instruction(line: Seq<Seq<char>>) -> bool {
    first_mnemonic(line) is Some
}

/// The number of instruction lines among the first `n` lines.
pub open spec fn instruction_count(tokens: Seq<Seq<Seq<char>>>, n: int) -> nat
    decreases n,
{
    if n <= 0 {
        0
    } else {
        instruction_count(tokens, n - 1) + if is_instruction(tokens[n - 1]) {
            1nat
        } else {
            0nat
        }
    }
}

/// The number of label declarations among the first `n` tokens of a line.
pub open spec fn line_labels(line: Seq<Seq<char>>, n: int) -> nat
    decreases n,
{
    if n <= 0 {
        0
    } else {
        line_labels(line, n - 1) + if label_of(line[n - 1]) is Some {
            1nat
        } else {
            0nat
        }
    }
}

/// The number of label declarations in the first `n` lines.
pub open spec fn label_total(tokens: Seq<Seq<Seq<char>>>, n: int) -> nat
    decreases n,
{
    if n <= 0 {
        0
    } else {
        label_total(tokens, n - 1) + line_labels(tokens[n - 1], tokens[n - 1].len() as int)
    }
}

/// What the first pass has found so far.
pub struct LabelScan {
    /// The labels with their addresses.
    pub labels: Map<Seq<char>, Symbol>,
    /// The entry point.
    pub start: i32,
    /// Whether a label was declared that was already there.
    pub duplicate: bool,
    /// The label that was declared although it was already there.
    pub culprit: Option<Seq<char>>,
    /// The number of labels registered.
    pub added: nat,
}

/// The first pass before its first token, in a context.
pub open spec fn labels_start(ctx: CtxView) -> LabelScan {
    LabelScan {
        labels: ctx.prog.labels,
        start: ctx.prog.start,
        duplicate: false,
        culprit: None,
        added: 0,
    }
}

/// The symbol of a label at address `addr`.
pub open spec fn label_symbol(addr: i32) -> Symbol {
    Symbol { value: addr, text: ""@ }
}

/// One token in the first pass, at address `addr`. A label named `start`
/// sets the entry point. A label that is there already ends the pass, and
/// is kept as the culprit.
pub open spec fn scan_token(tok: Seq<char>, addr: i32, acc: LabelScan) -> LabelScan {
    match label_of(tok) {
        None => acc,
        Some(name) => {
            let start = if name == "start"@ {
                addr
            } else {
                acc.start
            };
            if acc.labels.contains_key(name) {
                LabelScan { start, duplicate: true, culprit: Some(name), ..acc }
            } else {
                LabelScan {
                    labels: acc.labels.insert(name, label_symbol(addr)),
                    start,
                    duplicate: false,
                    culprit: None,
                    added: acc.added + 1,
                }
            }
        },
    }
}

/// The first `n` tokens of a line in the first pass.
pub open spec fn scan_line(line: Seq<Seq<char>>, n: int, addr: i32, acc: LabelScan) -> LabelScan
    decreases n,
{
    if n <= 0 {
        acc
    } else {
        let prior = scan_line(line, n - 1, addr, acc);
        if prior.duplicate {
            prior
        } else {
            scan_token(line[n - 1], addr, prior)
        }
    }
}

/// The first `n` lines in the first pass: the labels of a line get the
/// number of instruction lines before it as their address.
pub open spec fn scan_labels(tokens: Seq<Seq<Seq<char>>>, n: int, acc: LabelScan) -> LabelScan
    decreases n,
{
    if n <= 0 {
        acc
    } else {
        let prior = scan_labels(tokens, n - 1, acc);
        if prior.duplicate {
            prior
        } else {
            scan_line(
                tokens[n - 1],
                tokens[n - 1].len() as int,
                instruction_count(tokens, n - 1) as i32,
                prior,
            )
        }
    }
}

/// What operand resolution reads: the registers, the memory and the labels.
pub struct AsmEnv {
    pub registers: Seq<RvmRegU>,
    pub memory: Seq<u8>,
    pub labels: Map<Seq<char>, Symbol>,
}

/// What a context offers to operand resolution.
pub open spec fn env_of(ctx: CtxView) -> AsmEnv {
    AsmEnv { registers: ctx.mem.registers, memory: ctx.mem.memory, labels: ctx.prog.labels }
}

/// A resolved operand.
pub struct Resolved {
    /// The number that the operand stands for.
    pub value: i32,
    /// Whether the number is recorded in the pool of values.
    pub pooled: bool,
    /// The malformed literal that the number zero stands in for.
    pub rejected: Option<Seq<char>>,
}

/// A token up to its first line break.
pub open spec fn until_newline(tok: Seq<char>) -> Seq<char> {
    match index_of(tok, '\n') {
        Some(i) => tok.take(i),
        None => tok,
    }
}

/// The slot that a register name designates, where that slot holds a
/// plain integer.
pub open spec fn plain_register(tok: Seq<char>, registers: Seq<RvmRegU>) -> Option<i32> {
    match slot_of(tok) {
        Some(slot) => if slot < registers.len() && registers[slot] is I32 {
            Some(slot as i32)
        } else {
            None
        },
        None => None,
    }
}

/// What stands between the brackets of a memory reference `[...]`.
pub open spec fn bracketed(tok: Seq<char>) -> Option<Seq<char>> {
    if tok.len() > 0 && tok[0] == '[' {
        match index_of(tok, ']') {
            Some(close) => Some(tok.subrange(1, close)),
            None => None,
        }
    } else {
        None
    }
}

/// The malformed literal that `s` is, if it is one.
pub open spec fn rejected_literal(s: Seq<char>) -> Option<Seq<char>> {
    if parse_literal(s) is None {
        Some(s)
    } else {
        None
    }
}

/// Operand resolution. A token is, in this order: the name of a register
/// that holds a plain integer, which gives the slot; a memory reference,
/// which gives the byte at the address between the brackets; a label,
/// which gives its address; or a literal. A malformed literal counts as
/// zero. A memory reference outside the memory is a fault.
pub open spec fn resolve(tok: Seq<char>, env: AsmEnv) -> Result<Resolved, RvmFault> {
    let t = until_newline(tok);
    if plain_register(t, env.registers) is Some {
        Ok(
            Resolved {
                value: plain_register(t, env.registers)->Some_0,
                pooled: false,
                rejected: None,
            },
        )
    } else if bracketed(t) is Some {
        let inner = bracketed(t)->Some_0;
        let addr = literal_value(inner);
        if 0 <= addr < env.memory.len() {
            Ok(
                Resolved {
                    value: env.memory[addr as int] as i32,
                    pooled: false,
                    rejected: rejected_literal(inner),
                },
            )
        } else {
            Err(RvmFault::MemoryFault)
        }
    } else if env.labels.contains_key(t) {
        Ok(Resolved { value: env.labels[t].value, pooled: true, rejected: None })
    } else {
        Ok(Resolved { value: literal_value(t), pooled: true, rejected: rejected_literal(t) })
    }
}

/// What resolving the operands of a line has given so far.
pub struct OperandScan {
    /// The operands, in order.
    pub args: Seq<i32>,
    /// The pool of values.
    pub values: Seq<i32>,
    /// The malformed literals.
    pub rejected: Seq<Seq<char>>,
    /// The fault that ended the resolution.
    pub fault: Option<RvmFault>,
}

/// One more resolved operand.
pub open spec fn with_operand(acc: OperandScan, r: Resolved) -> OperandScan {
    OperandScan {
        args: acc.args.push(r.value),
        values: if r.pooled {
            acc.values.push(r.value)
        } else {
            acc.values
        },
        rejected: match r.rejected {
            Some(text) => acc.rejected.push(text),
            None => acc.rejected,
        },
        fault: None,
    }
}

/// Resolving the non-empty tokens between `place` and `upto`, both
/// excluded, from left to right, up to the first fault.
pub open spec fn scan_operands(
    line: Seq<Seq<char>>,
    place: int,
    upto: int,
    env: AsmEnv,
    acc: OperandScan,
) -> OperandScan
    decreases upto,
{
    if upto <= place + 1 || upto <= 0 {
        acc
    } else {
        let prior = scan_operands(line, place, upto - 1, env, acc);
        if prior.fault is Some || line[upto - 1].len() == 0 {
            prior
        } else {
            match resolve(line[upto - 1], env) {
                Err(fault) => OperandScan { fault: Some(fault), ..prior },
                Ok(r) => with_operand(prior, r),
            }
        }
    }
}

/// What the second pass has emitted so far.
pub struct ProgramScan {
    pub instructions: Seq<i32>,
    pub args: Seq<Seq<i32>>,
    pub values: Seq<i32>,
    pub rejected: Seq<Seq<char>>,
    /// The fault that ended the pass.
    pub fault: Option<RvmFault>,
}

/// One line in the second pass: an instruction line adds the opcode of
/// its first mnemonic and the operands behind it, any other line adds
/// nothing. An instruction line without an operand adds its opcode with an
/// empty operand list.
pub open spec fn emit_line(line: Seq<Seq<char>>, env: AsmEnv, acc: ProgramScan) -> ProgramScan {
    match first_mnemonic(line) {
        None => acc,
        Some((opcode, place)) => {
            let ops = scan_operands(
                line,
                place,
                line.len() as int,
                env,
                OperandScan {
                    args: Seq::empty(),
                    values: acc.values,
                    rejected: acc.rejected,
                    fault: None,
                },
            );
            if ops.fault is Some {
                ProgramScan { values: ops.values, rejected: ops.rejected, fault: ops.fault, ..acc }
            } else {
                ProgramScan {
                    instructions: acc.instructions.push(opcode),
                    args: acc.args.push(ops.args),
                    values: ops.values,
                    rejected: ops.rejected,
                    fault: None,
                }
            }
        },
    }
}

/// The first `n` lines in the second pass, up to the first fault.
pub open spec fn scan_program(
    tokens: Seq<Seq<Seq<char>>>,
    n: int,
    env: AsmEnv,
    acc: ProgramScan,
) -> ProgramScan
    decreases n,
{
    if n <= 0 {
        acc
    } else {
        let prior = scan_program(tokens, n - 1, env, acc);
        if prior.fault is Some {
            prior
        } else {
            emit_line(tokens[n - 1], env, prior)
        }
    }
}

/// What the first pass makes of a token stream in a context.
pub open spec fn labels_pass(ctx: CtxView, tokens: Seq<Seq<Seq<char>>>) -> LabelScan {
    scan_labels(tokens, tokens.len() as int, labels_start(ctx))
}

/// What resolving the operands of a line makes of a context.
pub open spec fn operands_pass(ctx: CtxView, line: Seq<Seq<char>>, place: usize) -> OperandScan {
    scan_operands(
        line,
        place as int,
        line.len() as int,
        env_of(ctx),
        OperandScan {
            args: Seq::empty(),
            values: ctx.prog.values,
            rejected: ctx.rejected,
            fault: None,
        },
    )
}

/// What the second pass makes of a token stream in a context.
pub open spec fn program_pass(ctx: CtxView, tokens: Seq<Seq<Seq<char>>>) -> ProgramScan {
    scan_program(
        tokens,
        tokens.len() as int,
        env_of(ctx),
        ProgramScan {
            instructions: ctx.prog.instructions,
            args: ctx.prog.args,
            values: ctx.prog.values,
            rejected: ctx.rejected,
            fault: None,
        },
    )
}

/// The two arrays of the program after the second pass: with the end
/// marker where the pass went through.
pub open spec fn assembled(scan: ProgramScan) -> (Seq<i32>, Seq<Seq<i32>>) {
    if scan.fault is Some {
        (scan.instructions, scan.args)
    } else {
        (scan.instructions.push(OP_END), scan.args.push(Seq::empty()))
    }
}

/// Whether a token stream fits the machine: its lines can be numbered in
/// 32 bits, and a label table that holds `count` entries has room for one
/// entry for every label declaration.
pub open spec fn fits(count: nat, tokens: Seq<Seq<Seq<char>>>) -> bool {
    tokens.len() <= i32::MAX && count + label_total(tokens, tokens.len() as int)
        <= HTAB_MAX_ENTRIES
}

/// A context after the first pass: it holds the labels, the entry point,
/// and the label that was found declared twice, if the pass failed on one.
pub open spec fn with_labels(ctx: CtxView, scan: LabelScan) -> CtxView {
    CtxView {
        prog: ProgramView { labels: scan.labels, start: scan.start, ..ctx.prog },
        duplicate_label: scan.culprit,
        ..ctx
    }
}

/// A context after the second pass.
pub open spec fn with_program(ctx: CtxView, scan: ProgramScan) -> CtxView {
    CtxView {
        prog: ProgramView {
            instructions: assembled(scan).0,
            args: assembled(scan).1,
            values: scan.values,
            ..ctx.prog
        },
        rejected: scan.rejected,
        ..ctx
    }
}

/// Whether assembling a token stream in a context goes through: the
/// stream fits, no label is declared twice, and no memory reference lies
/// outside the memory.
pub open spec fn assembles(ctx: CtxView, count: nat, tokens: Seq<Seq<Seq<char>>>) -> bool {
    fits(count, tokens) && !labels_pass(ctx, tokens).duplicate && program_pass(
        with_labels(ctx, labels_pass(ctx, tokens)),
        tokens,
    ).fault is None
}

/// The context after assembling a token stream: a stream that does not
/// fit leaves it alone; the first pass leaves its labels, also where it
/// fails; the second pass follows where the first went through.
pub open spec fn assembled_ctx(ctx: CtxView, count: nat, tokens: Seq<Seq<Seq<char>>>) -> CtxView {
    if !fits(count, tokens) {
        ctx
    } else if labels_pass(ctx, tokens).duplicate {
        with_labels(ctx, labels_pass(ctx, tokens))
    } else {
        with_program(
            with_labels(ctx, labels_pass(ctx, tokens)),
            program_pass(with_labels(ctx, labels_pass(ctx, tokens)), tokens),
        )
    }
}

/// The number of label declarations grows with the number of lines.
pub proof fn lemma_label_total_grows(tokens: Seq<Seq<Seq<char>>>, a: int, b: int)
    requires
        a <= b,
    ensures
        label_total(tokens, a) <= label_total(tokens, b),
    decreases b - a,
{
    if a < b {
        lemma_label_total_grows(tokens, a, b - 1);
    }
}

/// The number of label declarations grows with the part of the line that
/// is counted.
pub proof fn lemma_line_labels_grow(line: Seq<Seq<char>>, a: int, b: int)
    requires
        a <= b,
    ensures
        line_labels(line, a) <= line_labels(line, b),
    decreases b - a,
{
    if a < b {
        lemma_line_labels_grow(line, a, b - 1);
    }
}

/// There are no more instruction lines than lines.
pub proof fn lemma_instruction_count_bound(tokens: Seq<Seq<Seq<char>>>, n: int)
    requires
        0 <= n,
    ensures
        instruction_count(tokens, n) <= n,
    decreases n,
{
    if n > 0 {
        lemma_instruction_count_bound(tokens, n - 1);
    }
}

/// Once a label was declared twice, the rest of the line changes nothing.
pub proof fn lemma_scan_line_stops(
    line: Seq<Seq<char>>,
    j: int,
    n: int,
    addr: i32,
    acc: LabelScan,
)
    requires
        j <= n,
        scan_line(line, j, addr, acc).duplicate,
    ensures
        scan_line(line, n, addr, acc) == scan_line(line, j, addr, acc),
    decreases n - j,
{
    if j < n {
        lemma_scan_line_stops(line, j, n - 1, addr, acc);
    }
}

/// Once a label was declared twice, the rest of the lines changes nothing.
pub proof fn lemma_scan_labels_stops(tokens: Seq<Seq<Seq<char>>>, i: int, n: int, acc: LabelScan)
    requires
        i <= n,
        scan_labels(tokens, i, acc).duplicate,
    ensures
        scan_labels(tokens, n, acc) == scan_labels(tokens, i, acc),
    decreases n - i,
{
    if i < n {
        lemma_scan_labels_stops(tokens, i, n - 1, acc);
    }
}

/// After a fault the rest of the line changes nothing.
pub proof fn lemma_scan_operands_stops(
    line: Seq<Seq<char>>,
    place: int,
    j: int,
    n: int,
    env: AsmEnv,
    acc: OperandScan,
)
    requires
        j <= n,
        scan_operands(line, place, j, env, acc).fault is Some,
    ensures
        scan_operands(line, place, n, env, acc) == scan_operands(line, place, j, env, acc),
    decreases n - j,
{
    if j < n {
        lemma_scan_operands_stops(line, place, j, n - 1, env, acc);
        if n <= place + 1 || n <= 0 {
            assert(scan_operands(line, place, j, env, acc) == acc);
        }
    }
}

/// After a fault the rest of the lines changes nothing.
pub proof fn lemma_scan_program_stops(
    tokens: Seq<Seq<Seq<char>>>,
    i: int,
    n: int,
    env: AsmEnv,
    acc: ProgramScan,
)
    requires
        i <= n,
        scan_program(tokens, i, env, acc).fault is Some,
    ensures
        scan_program(tokens, n, env, acc) == scan_program(tokens, i, env, acc),
    decreases n - i,
{
    if i < n {
        lemma_scan_program_stops(tokens, i, n - 1, env, acc);
        if n <= 0 {
            assert(scan_program(tokens, i, env, acc) == acc);
        }
    }
}

} // verus!
