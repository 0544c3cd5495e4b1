//! The instruction set: mnemonics, register names and opcode numbers.

use vstd::prelude::*;

verus! {

/// The mnemonics. The position of a mnemonic is its opcode.
pub const RVM_OPCODE_MAP: [&'static str; 32] = [
    "nop", "int", "mov",
    "push", "pop", "pushf", "popf",
    "inc", "dec", "add", "sub", "mul", "div", "mod", "rem",
    "not", "xor", "or", "and", "shl", "shr",
    "cmp", "jmp", "call", "ret",
    "je", "jne", "jg", "jge", "jl", "jle",
    "prn",
];

/// The register names. The position of a name is its slot in the register file.
pub const RVM_REGISTER_MAP: [&'static str; 17] = [
    "eax", "ebx", "ecx", "edx",
    "esi", "edi", "esp", "ebp",
    "eip", "r08", "r09", "r10", "r11",
    "r12", "r13", "r14", "r15",
];

pub const OP_NOP: i32 = 0;
pub const OP_INT: i32 = 1;
pub const OP_MOV: i32 = 2;
pub const OP_PUSH: i32 = 3;
pub const OP_POP: i32 = 4;
pub const OP_PUSHF: i32 = 5;
pub const OP_POPF: i32 = 6;
pub const OP_INC: i32 = 7;
pub const OP_DEC: i32 = 8;
pub const OP_ADD: i32 = 9;
pub const OP_SUB: i32 = 10;
pub const OP_MUL: i32 = 11;
pub const OP_DIV: i32 = 12;
pub const OP_MOD: i32 = 13;
pub const OP_REM: i32 = 14;
pub const OP_NOT: i32 = 15;
pub const OP_XOR: i32 = 16;
pub const OP_OR: i32 = 17;
pub const OP_AND: i32 = 18;
pub const OP_SHL: i32 = 19;
pub const OP_SHR: i32 = 20;
pub const OP_COMPARE: i32 = 21;
pub const OP_JMP: i32 = 22;
pub const OP_CALL: i32 = 23;
pub const OP_RET: i32 = 24;
pub const OP_JE: i32 = 25;
pub const OP_JNE: i32 = 26;
pub const OP_JG: i32 = 27;
pub const OP_JGE: i32 = 28;
pub const OP_JL: i32 = 29;
pub const OP_JLE: i32 = 30;
pub const OP_PRN: i32 = 31;

/// The opcode that ends every program. It is no instruction.
pub const OP_END: i32 = -1;

/// The position of the first name at or after `from` that equals `tok`.
pub open spec fn position_from(names: Seq<&'static str>, tok: Seq<char>, from: int) -> Option<int>
    decreases names.len() - from,
{
    if from < 0 || from >= names.len() {
        None
    } else if names[from]@ == tok {
        Some(from)
    } else {
        position_from(names, tok, from + 1)
    }
}

/// The opcode that `tok` is the mnemonic of.
pub open spec fn opcode_of(tok: Seq<char>) -> Option<i32> {
    match position_from(RVM_OPCODE_MAP@, tok, 0) {
        Some(i) => Some(i as i32),
        None => None,
    }
}

/// The slot that `tok` is the register name of.
pub open spec fn slot_of(tok: Seq<char>) -> Option<int> {
    position_from(RVM_REGISTER_MAP@, tok, 0)
}

/// The sizes of the two tables.
pub proof fn lemma_table_sizes()
    ensures
        RVM_OPCODE_MAP@.len() == 32,
        RVM_REGISTER_MAP@.len() == 17,
{
    vstd::array::array_len_matches_n(&RVM_OPCODE_MAP);
    vstd::array::array_len_matches_n(&RVM_REGISTER_MAP);
}

} // verus!
