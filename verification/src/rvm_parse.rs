//! The two passes of the assembler, on a machine context.

use vstd::prelude::*;
use crate::rvm::{CtxView, RvmCtx};
use crate::rvm_asm::{
    assembled, assembled_ctx, assembles, emit_line, env_of, first_mnemonic, fits,
    instruction_count, is_instruction, label_of, label_total, labels_pass, labels_start,
    lemma_instruction_count_bound, lemma_label_total_grows, lemma_line_labels_grow,
    lemma_scan_labels_stops, lemma_scan_line_stops, lemma_scan_operands_stops,
    lemma_scan_program_stops, line_labels, mnemonic_from, operands_pass, plain_register,
    program_pass, rejected_literal, resolve, scan_labels, scan_line, scan_operands, scan_program,
    scan_token, until_newline, with_labels, LabelScan, OperandScan, ProgramScan,
};
use crate::rvm_htab::{RvmHtabCtx, HTAB_MAX_ENTRIES};
use crate::rvm_lex::{lex_spec, RvmLexerCtx};
use crate::rvm_isa::{
    lemma_table_sizes, opcode_of, position_from, OP_END, RVM_OPCODE_MAP, RVM_REGISTER_MAP,
};
use crate::rvm_literal::{find_char, literal_value, parse_literal_range, rvm_parse_literal};
use crate::rvm_memory::{RvmFault, RvmRegU};
use crate::rvm_prog::ProgramView;
use crate::rvm_text::{text_chars, text_eq, text_of, texts_view, tokens_view};

verus! {

/// The status of a pass that went through.
pub const RVM_OK: i32 = 0;

/// The status of a pass that failed.
pub const RVM_FAILED: i32 = 1;

/// The position of `tok` in a table of names.
fn position_in(names: &[&'static str], tok: &str) -> (r: Option<usize>)
    ensures
        match position_from(names@, tok@, 0) {
            Some(i) => r == Some(i as usize) && 0 <= i < names@.len(),
            None => r is None,
        },
{
    let mut i: usize = 0;
    while i < names.len()
        invariant
            i <= names@.len(),
            position_from(names@, tok@, 0) == position_from(names@, tok@, i as int),
        decreases names@.len() - i,
    {
        if text_eq(tok, names[i]) {
            return Some(i);
        }
        i = i + 1;
    }
    None
}

/// Whether `tok` declares a label.
fn ends_in_colon(tok: &str) -> (r: bool)
    ensures
        r == label_of(tok@) is Some,
{
    let mut last: Option<char> = None;
    for c in it: tok.chars()
        invariant
            it.seq() == tok@,
            last == if it.index() > 0 {
                Some(it.seq()[it.index() - 1])
            } else {
                None::<char>
            },
    {
        last = Some(c);
    }
    match last {
        Some(c) => c == ':',
        None => false,
    }
}

/// The name that `tok` declares as a label.
fn label_name(tok: &str) -> (r: Option<String>)
    ensures
        match label_of(tok@) {
            Some(name) => r is Some && r->Some_0@ == name,
            None => r is None,
        },
{
    let chars = text_chars(tok);
    let n = chars.len();
    if n > 0 && chars[n - 1] == ':' {
        assert(chars@.subrange(0, n - 1) =~= tok@.drop_last());
        Some(text_of(&chars, 0, n - 1))
    } else {
        None
    }
}

impl RvmCtx {
    /// The opcode of a mnemonic, or -1 for any other text.
    pub fn instr_to_opcode(instr: &str) -> (opcode: i32)
        ensures
            opcode == match opcode_of(instr@) {
                Some(op) => op,
                None => -1i32,
            },
            opcode_of(instr@) matches Some(op) ==> 0 <= op < 32,
    {
        proof {
            lemma_table_sizes();
        }
        let table = RVM_OPCODE_MAP.as_slice();
        assert(table@ == RVM_OPCODE_MAP@);
        match position_in(table, instr) {
            Some(i) => i as i32,
            None => -1,
        }
    }

    /// The slot that a register name designates, where the slot holds a
    /// plain integer.
    pub fn token_to_register(&self, tok: &str) -> (r: Option<i32>)
        ensures
            r == plain_register(tok@, self@.mem.registers),
    {
        proof {
            lemma_table_sizes();
        }
        let table = RVM_REGISTER_MAP.as_slice();
        assert(table@ == RVM_REGISTER_MAP@);
        match position_in(table, tok) {
            Some(i) => {
                if i < self.mem.registers.len() {
                    if let RvmRegU::I32(_) = self.mem.registers[i] {
                        return Some(i as i32);
                    }
                }
                None
            },
            None => None,
        }
    }

    /// Records `val` in the pool of values and hands it back.
    pub fn rvm_add_value(&mut self, val: i32) -> (r: i32)
        ensures
            r == val,
            final(self)@ == (CtxView {
                prog: ProgramView { values: old(self)@.prog.values.push(val), ..old(self)@.prog },
                ..old(self)@
            }),
            final(self).prog.labels == old(self).prog.labels,
            final(self).prog.defines == old(self).prog.defines,
            final(self).prog.instructions == old(self).prog.instructions,
            final(self).prog.args == old(self).prog.args,
            final(self).prog.start == old(self).prog.start,
            final(self).mem == old(self).mem,
            final(self).console == old(self).console,
            final(self).duplicate_label == old(self).duplicate_label,
            final(self).rejected == old(self).rejected,
    {
        self.prog.values.push(val);
        val
    }

    /// The value of a literal. A malformed literal counts as zero and is
    /// put on record.
    pub fn rvm_parse_value(&mut self, s: &str) -> (r: i32)
        ensures
            r == literal_value(s@),
            final(self)@ == (CtxView {
                rejected: match rejected_literal(s@) {
                    Some(text) => old(self)@.rejected.push(text),
                    None => old(self)@.rejected,
                },
                ..old(self)@
            }),
            final(self).prog == old(self).prog,
            final(self).mem == old(self).mem,
            final(self).console == old(self).console,
            final(self).duplicate_label == old(self).duplicate_label,
    {
        match rvm_parse_literal(s) {
            Some(value) => value,
            None => {
                self.rejected.push(s.to_owned());
                assert(texts_view(self.rejected@) =~= texts_view(old(self).rejected@).push(s@));
                0
            },
        }
    }

    /// Whether a line is an instruction line: whether one of its tokens
    /// is a mnemonic.
    pub fn rvm_is_instruction(&self, instr_toks: &Vec<String>) -> (r: bool)
        ensures
            r == is_instruction(texts_view(instr_toks@)),
    {
        let (opcode, _) = self.rvm_parse_instr(instr_toks);
        opcode != -1
    }

    /// The first pass: registers every label with the index that the next
    /// instruction line will have, and sets the entry point at the label
    /// `start`. A token stream that does not fit is refused before
    /// anything is done. Returns `RVM_FAILED` for such a stream, and as
    /// soon as a label is declared that is there already, which is then
    /// kept in `duplicate_label`; `RVM_OK` otherwise.
    #[verifier::loop_isolation(false)]
    pub fn rvm_parse_labels(&mut self, tokens: &Vec<Vec<String>>) -> (r: i32)
        requires
            old(self).wf(),
        ensures
            final(self).wf(),
            final(self)@ == if fits(old(self).prog.labels.count(), tokens_view(tokens@)) {
                with_labels(old(self)@, labels_pass(old(self)@, tokens_view(tokens@)))
            } else {
                old(self)@
            },
            r == if fits(old(self).prog.labels.count(), tokens_view(tokens@)) && !labels_pass(
                old(self)@,
                tokens_view(tokens@),
            ).duplicate {
                RVM_OK
            } else {
                RVM_FAILED
            },
            final(self).prog.labels.count() == old(self).prog.labels.count() + if fits(
                old(self).prog.labels.count(),
                tokens_view(tokens@),
            ) {
                labels_pass(old(self)@, tokens_view(tokens@)).added
            } else {
                0
            },
            final(self).prog.defines == old(self).prog.defines,
            final(self).mem == old(self).mem,
    {
        if !self.rvm_tokens_fit(tokens) {
            return RVM_FAILED;
        }
        let ghost lines = tokens_view(tokens@);
        let ghost init = labels_start(old(self)@);
        let ghost room = old(self).prog.labels.count();
        let mut num_instr: i32 = 0;
        let mut i: usize = 0;
        while i < tokens.len()
            invariant
                self.wf(),
                i <= tokens@.len() <= i32::MAX,
                lines == tokens_view(tokens@),
                init == labels_start(old(self)@),
                room == old(self).prog.labels.count(),
                room + label_total(lines, tokens@.len() as int) <= HTAB_MAX_ENTRIES,
                self.prog.labels.count() <= room + label_total(lines, i as int),
                num_instr == instruction_count(lines, i as int),
                scan_labels(lines, i as int, init) == (LabelScan {
                    labels: self.prog.labels@,
                    start: self.prog.start,
                    duplicate: false,
                    culprit: None,
                    added: (self.prog.labels.count() - room) as nat,
                }),
                self.prog.labels.count() >= room,
                self.mem == old(self).mem,
                self.console == old(self).console,
                self.duplicate_label == old(self).duplicate_label,
                self.rejected == old(self).rejected,
                self.prog.instructions == old(self).prog.instructions,
                self.prog.args == old(self).prog.args,
                self.prog.values == old(self).prog.values,
                self.prog.defines == old(self).prog.defines,
            decreases tokens@.len() - i,
        {
            let line = &tokens[i];
            let ghost before = scan_labels(lines, i as int, init);
            assert(lines[i as int] == texts_view(line@));
            proof {
                lemma_label_total_grows(lines, i + 1, tokens@.len() as int);
                lemma_instruction_count_bound(lines, i as int);
            }
            let mut j: usize = 0;
            while j < line.len()
                invariant
                    self.wf(),
                    i < tokens@.len() <= i32::MAX,
                    j <= line@.len(),
                    lines == tokens_view(tokens@),
                    lines[i as int] == texts_view(line@),
                    room + label_total(lines, i + 1) <= HTAB_MAX_ENTRIES,
                    self.prog.labels.count() <= room + label_total(lines, i as int) + line_labels(
                        lines[i as int],
                        j as int,
                    ),
                    num_instr == instruction_count(lines, i as int),
                    before == scan_labels(lines, i as int, init),
                    !before.duplicate,
                    scan_line(lines[i as int], j as int, num_instr, before) == (LabelScan {
                        labels: self.prog.labels@,
                        start: self.prog.start,
                        duplicate: false,
                        culprit: None,
                        added: (self.prog.labels.count() - room) as nat,
                    }),
                    self.prog.labels.count() >= room,
                    self.mem == old(self).mem,
                    self.console == old(self).console,
                    self.duplicate_label == old(self).duplicate_label,
                    self.rejected == old(self).rejected,
                    self.prog.instructions == old(self).prog.instructions,
                    self.prog.args == old(self).prog.args,
                    self.prog.values == old(self).prog.values,
                    self.prog.defines == old(self).prog.defines,
                decreases line@.len() - j,
            {
                let ghost prior = scan_line(lines[i as int], j as int, num_instr, before);
                assert(lines[i as int][j as int] == line@[j as int]@);
                proof {
                    lemma_line_labels_grow(lines[i as int], j + 1, line@.len() as int);
                }
                // Check for a label delimiter
                if let Some(name) = label_name(line[j].as_str()) {
                    // If the label is "start" make it the entry point
                    if text_eq(name.as_str(), "start") {
                        self.prog.start = num_instr;
                    }
                    // Check if the label already exists
                    if self.prog.labels.rvm_htab_find(name.as_str()).is_some() {
                        proof {
                            let failed = scan_line(lines[i as int], j + 1, num_instr, before);
                            assert(failed == scan_token(line@[j as int]@, num_instr, prior));
                            assert(failed.duplicate);
                            lemma_scan_line_stops(
                                lines[i as int],
                                j + 1,
                                line@.len() as int,
                                num_instr,
                                before,
                            );
                            assert(scan_labels(lines, i + 1, init) == failed);
                            lemma_scan_labels_stops(lines, i + 1, tokens@.len() as int, init);
                        }
                        self.duplicate_label = Some(name);
                        return RVM_FAILED;
                    }
                    // Add the label to the hash table
                    self.prog.labels.rvm_htab_add(name.as_str(), num_instr, "");
                }
                j = j + 1;
            }
            if self.rvm_is_instruction(line) {
                num_instr = num_instr + 1;
            }
            i = i + 1;
        }
        self.duplicate_label = None;
        RVM_OK
    }

    /// The opcode and the position of the first mnemonic of a line, or
    /// `(-1, 0)` for a line without one.
    pub fn rvm_parse_instr(&self, instr_toks: &Vec<String>) -> (r: (i32, usize))
        ensures
            first_mnemonic(texts_view(instr_toks@)) is None ==> r == (-1i32, 0usize),
            first_mnemonic(texts_view(instr_toks@)) matches Some(found) ==> r.0 == found.0 && r.1
                == found.1 && 0 <= found.0 < 32 && 0 <= found.1 < instr_toks@.len(),
    {
        let ghost line = texts_view(instr_toks@);
        let mut i: usize = 0;
        while i < instr_toks.len()
            invariant
                i <= instr_toks@.len(),
                line == texts_view(instr_toks@),
                first_mnemonic(line) == mnemonic_from(line, i as int),
            decreases instr_toks@.len() - i,
        {
            assert(line[i as int] == instr_toks@[i as int]@);
            // an empty token is no mnemonic
            if !instr_toks[i].as_str().is_empty() {
                let opcode = RvmCtx::instr_to_opcode(instr_toks[i].as_str());
                if opcode != -1 {
                    return (opcode, i);
                }
            }
            i = i + 1;
        }
        (-1, 0)
    }

    /// Resolves one operand token as `resolve` says.
    fn resolve_operand(&mut self, tok: &str) -> (r: Result<i32, RvmFault>)
        requires
            old(self).wf(),
        ensures
            final(self).wf(),
            match resolve(tok@, env_of(old(self)@)) {
                Err(fault) => r == Err::<i32, RvmFault>(fault) && final(self)@ == old(self)@,
                Ok(res) => r == Ok::<i32, RvmFault>(res.value) && final(self)@ == (CtxView {
                    prog: ProgramView {
                        values: if res.pooled {
                            old(self)@.prog.values.push(res.value)
                        } else {
                            old(self)@.prog.values
                        },
                        ..old(self)@.prog
                    },
                    rejected: match res.rejected {
                        Some(text) => old(self)@.rejected.push(text),
                        None => old(self)@.rejected,
                    },
                    ..old(self)@
                }),
            },
            final(self).prog.labels == old(self).prog.labels,
            final(self).prog.defines == old(self).prog.defines,
            final(self).prog.instructions == old(self).prog.instructions,
            final(self).prog.args == old(self).prog.args,
            final(self).prog.start == old(self).prog.start,
            final(self).mem == old(self).mem,
            final(self).console == old(self).console,
            final(self).duplicate_label == old(self).duplicate_label,
    {
        let mut chars = text_chars(tok);
        if let Some(newline_pos) = find_char(&chars, '\n', 0) {
            chars.truncate(newline_pos);
        }
        assert(chars@ =~= until_newline(tok@));
        let n = chars.len();
        let token = text_of(&chars, 0, n);
        assert(token@ =~= chars@);

        // Check if the token specifies a register
        if let Some(slot) = self.token_to_register(token.as_str()) {
            return Ok(slot);
        }
        // Check to see whether the token specifies an address
        if n > 0 && chars[0] == '[' {
            if let Some(end_pos) = find_char(&chars, ']', 0) {
                proof {
                    crate::rvm_literal::lemma_index_from(chars@, ']', 0);
                }
                let parsed = parse_literal_range(&chars, 1, end_pos);
                let addr_val = match parsed {
                    Some(value) => value,
                    None => 0,
                };
                if addr_val < 0 || addr_val as usize >= self.mem.mem_space.len() {
                    return Err(RvmFault::MemoryFault);
                }
                if parsed.is_none() {
                    self.rejected.push(text_of(&chars, 1, end_pos));
                    assert(texts_view(self.rejected@) =~= texts_view(old(self).rejected@).push(
                        chars@.subrange(1, end_pos as int),
                    ));
                }
                // Get the value at the address from the memory
                return Ok(self.mem.mem_space[addr_val as usize] as i32);
            }
        }
        // Check if the argument is a label
        if let Some(addr) = self.prog.labels.rvm_htab_find(token.as_str()) {
            return Ok(self.rvm_add_value(addr));
        }
        // Otherwise, parse the token as a value
        let tok_val = self.rvm_parse_value(token.as_str());
        Ok(self.rvm_add_value(tok_val))
    }

    /// Resolves the operands of a line whose mnemonic stands at
    /// `instr_place`: every non-empty token behind it gives one operand.
    /// Stops at the first memory reference that lies outside the memory.
    #[verifier::loop_isolation(false)]
    pub fn rvm_parse_args(&mut self, instr_toks: &Vec<String>, instr_place: usize) -> (r: Result<
        Vec<i32>,
        RvmFault,
    >)
        requires
            old(self).wf(),
        ensures
            final(self).wf(),
            final(self)@ == (CtxView {
                prog: ProgramView {
                    values: operands_pass(old(self)@, texts_view(instr_toks@), instr_place).values,
                    ..old(self)@.prog
                },
                rejected: operands_pass(old(self)@, texts_view(instr_toks@), instr_place).rejected,
                ..old(self)@
            }),
            match operands_pass(old(self)@, texts_view(instr_toks@), instr_place).fault {
                Some(fault) => r == Err::<Vec<i32>, RvmFault>(fault),
                None => r is Ok && r->Ok_0@ == operands_pass(
                    old(self)@,
                    texts_view(instr_toks@),
                    instr_place,
                ).args,
            },
            final(self).prog.labels == old(self).prog.labels,
            final(self).prog.defines == old(self).prog.defines,
            final(self).prog.instructions == old(self).prog.instructions,
            final(self).prog.args == old(self).prog.args,
            final(self).prog.start == old(self).prog.start,
            final(self).mem == old(self).mem,
            final(self).console == old(self).console,
            final(self).duplicate_label == old(self).duplicate_label,
    {
        let ghost line = texts_view(instr_toks@);
        let ghost env = env_of(old(self)@);
        let ghost init = OperandScan {
            args: Seq::empty(),
            values: old(self)@.prog.values,
            rejected: old(self)@.rejected,
            fault: None,
        };
        let mut args: Vec<i32> = Vec::new();
        if instr_place >= instr_toks.len() {
            return Ok(args);
        }
        let mut i: usize = instr_place + 1;
        while i < instr_toks.len()
            invariant
                self.wf(),
                instr_place < i <= instr_toks@.len(),
                line == texts_view(instr_toks@),
                env == env_of(old(self)@),
                env == env_of(self@),
                init == (OperandScan {
                    args: Seq::empty(),
                    values: old(self)@.prog.values,
                    rejected: old(self)@.rejected,
                    fault: None,
                }),
                scan_operands(line, instr_place as int, i as int, env, init) == (OperandScan {
                    args: args@,
                    values: self@.prog.values,
                    rejected: self@.rejected,
                    fault: None,
                }),
                self.prog.labels == old(self).prog.labels,
                self.prog.defines == old(self).prog.defines,
                self.prog.instructions == old(self).prog.instructions,
                self.prog.args == old(self).prog.args,
                self.prog.start == old(self).prog.start,
                self.mem == old(self).mem,
                self.console == old(self).console,
                self.duplicate_label == old(self).duplicate_label,
            decreases instr_toks@.len() - i,
        {
            assert(line[i as int] == instr_toks@[i as int]@);
            if !instr_toks[i].as_str().is_empty() {
                let ghost prior = scan_operands(line, instr_place as int, i as int, env, init);
                match self.resolve_operand(instr_toks[i].as_str()) {
                    Err(fault) => {
                        proof {
                            lemma_scan_operands_stops(
                                line,
                                instr_place as int,
                                i + 1,
                                instr_toks@.len() as int,
                                env,
                                init,
                            );
                        }
                        return Err(fault);
                    },
                    Ok(value) => {
                        args.push(value);
                    },
                }
            }
            i = i + 1;
        }
        Ok(args)
    }

    /// The second pass: emits the opcode and the operands of every
    /// instruction line, and the end marker behind the last. Returns
    /// `RVM_FAILED`, without the end marker, at the first memory reference
    /// that lies outside the memory, `RVM_OK` otherwise.
    #[verifier::loop_isolation(false)]
    pub fn rvm_parse_program(&mut self, tokens: &Vec<Vec<String>>) -> (r: i32)
        requires
            old(self).wf(),
        ensures
            final(self).wf(),
            final(self)@ == (CtxView {
                prog: ProgramView {
                    instructions: assembled(program_pass(old(self)@, tokens_view(tokens@))).0,
                    args: assembled(program_pass(old(self)@, tokens_view(tokens@))).1,
                    values: program_pass(old(self)@, tokens_view(tokens@)).values,
                    ..old(self)@.prog
                },
                rejected: program_pass(old(self)@, tokens_view(tokens@)).rejected,
                ..old(self)@
            }),
            r == if program_pass(old(self)@, tokens_view(tokens@)).fault is Some {
                RVM_FAILED
            } else {
                RVM_OK
            },
            final(self).prog.labels == old(self).prog.labels,
            final(self).prog.defines == old(self).prog.defines,
            final(self).mem == old(self).mem,
    {
        let ghost lines = tokens_view(tokens@);
        let ghost env = env_of(old(self)@);
        let ghost init = ProgramScan {
            instructions: old(self)@.prog.instructions,
            args: old(self)@.prog.args,
            values: old(self)@.prog.values,
            rejected: old(self)@.rejected,
            fault: None,
        };
        let mut i: usize = 0;
        while i < tokens.len()
            invariant
                self.wf(),
                i <= tokens@.len(),
                lines == tokens_view(tokens@),
                env == env_of(old(self)@),
                env == env_of(self@),
                init == (ProgramScan {
                    instructions: old(self)@.prog.instructions,
                    args: old(self)@.prog.args,
                    values: old(self)@.prog.values,
                    rejected: old(self)@.rejected,
                    fault: None,
                }),
                scan_program(lines, i as int, env, init) == (ProgramScan {
                    instructions: self@.prog.instructions,
                    args: self@.prog.args,
                    values: self@.prog.values,
                    rejected: self@.rejected,
                    fault: None,
                }),
                self.prog.labels == old(self).prog.labels,
                self.prog.defines == old(self).prog.defines,
                self.prog.start == old(self).prog.start,
                self.mem == old(self).mem,
                self.console == old(self).console,
                self.duplicate_label == old(self).duplicate_label,
            decreases tokens@.len() - i,
        {
            assert(lines[i as int] == texts_view(tokens@[i as int]@));
            let ghost prior = scan_program(lines, i as int, env, init);
            let (opcode, instr_place) = self.rvm_parse_instr(&tokens[i]);
            if opcode != -1 {
                assert(first_mnemonic(lines[i as int]) == Some((opcode, instr_place as int)));
                let ghost ops = operands_pass(self@, lines[i as int], instr_place);
                match self.rvm_parse_args(&tokens[i], instr_place) {
                    Err(fault) => {
                        proof {
                            assert(ops.fault == Some(fault));
                            assert(emit_line(lines[i as int], env, prior).fault == Some(fault));
                            assert(scan_program(lines, i + 1, env, init).fault == Some(fault));
                            lemma_scan_program_stops(lines, i + 1, tokens@.len() as int, env, init);
                        }
                        return RVM_FAILED;
                    },
                    Ok(args) => {
                        // Add the instruction to the program
                        self.prog.instructions.push(opcode);
                        // Add the arguments to the program
                        self.prog.args.push(args);
                        assert(self@.prog.args =~= prior.args.push(args@));
                    },
                }
            }
            i = i + 1;
        }
        // The end marker
        self.prog.args.push(Vec::new());
        self.prog.instructions.push(OP_END);
        proof {
            let done = scan_program(lines, tokens@.len() as int, env, init);
            assert(self@.prog.args =~= done.args.push(Seq::empty()));
        }
        RVM_OK
    }

    /// Whether a token stream fits this context: see `fits`.
    #[verifier::loop_isolation(false)]
    pub fn rvm_tokens_fit(&self, tokens: &Vec<Vec<String>>) -> (r: bool)
        ensures
            r == fits(self.prog.labels.count(), tokens_view(tokens@)),
    {
        let ghost lines = tokens_view(tokens@);
        if tokens.len() > 0x7fff_ffff {
            return false;
        }
        let limit: u64 = HTAB_MAX_ENTRIES as u64;
        let mut total: u64 = self.prog.labels.rvm_htab_len() as u64;
        if total > limit {
            return false;
        }
        let mut i: usize = 0;
        while i < tokens.len()
            invariant
                i <= tokens@.len(),
                total <= limit,
                total == self.prog.labels.count() + label_total(lines, i as int),
            decreases tokens@.len() - i,
        {
            let line = &tokens[i];
            assert(lines[i as int] == texts_view(line@));
            proof {
                lemma_label_total_grows(lines, i + 1, tokens@.len() as int);
            }
            let mut j: usize = 0;
            while j < line.len()
                invariant
                    j <= line@.len(),
                    total <= limit,
                    total == self.prog.labels.count() + label_total(lines, i as int)
                        + line_labels(lines[i as int], j as int),
                decreases line@.len() - j,
            {
                assert(lines[i as int][j as int] == line@[j as int]@);
                if ends_in_colon(line[j].as_str()) {
                    if total == limit {
                        proof {
                            lemma_line_labels_grow(lines[i as int], j + 1, line@.len() as int);
                        }
                        return false;
                    }
                    total = total + 1;
                }
                j = j + 1;
            }
            i = i + 1;
        }
        true
    }

    /// Assembles a token stream: the first pass and, where it goes through,
    /// the second. Returns `RVM_OK` where the stream assembles,
    /// `RVM_FAILED` otherwise.
    pub fn rvm_assemble(&mut self, tokens: &Vec<Vec<String>>) -> (r: i32)
        requires
            old(self).wf(),
        ensures
            final(self).wf(),
            final(self)@ == assembled_ctx(
                old(self)@,
                old(self).prog.labels.count(),
                tokens_view(tokens@),
            ),
            r == if assembles(old(self)@, old(self).prog.labels.count(), tokens_view(tokens@)) {
                RVM_OK
            } else {
                RVM_FAILED
            },
            final(self).prog.labels.count() == old(self).prog.labels.count() + if fits(
                old(self).prog.labels.count(),
                tokens_view(tokens@),
            ) {
                labels_pass(old(self)@, tokens_view(tokens@)).added
            } else {
                0
            },
            final(self).mem == old(self).mem,
            final(self).prog.defines == old(self).prog.defines,
    {
        if self.rvm_parse_labels(tokens) != RVM_OK {
            return RVM_FAILED;
        }
        self.rvm_parse_program(tokens)
    }

    /// Makes a program of a preprocessed source: takes over the
    /// definitions, lexes the source with them and assembles the tokens.
    pub fn rvm_vm_interpret(&mut self, source: &str, defines: RvmHtabCtx) -> (r: i32)
        requires
            old(self).wf(),
            defines.wf(),
        ensures
            final(self).wf(),
            final(self)@ == assembled_ctx(
                defined(old(self)@, defines),
                old(self).prog.labels.count(),
                lex_spec(source@, defines@),
            ),
            r == if assembles(
                defined(old(self)@, defines),
                old(self).prog.labels.count(),
                lex_spec(source@, defines@),
            ) {
                RVM_OK
            } else {
                RVM_FAILED
            },
            final(self).prog.labels.count() == old(self).prog.labels.count() + if fits(
                old(self).prog.labels.count(),
                lex_spec(source@, defines@),
            ) {
                labels_pass(defined(old(self)@, defines), lex_spec(source@, defines@)).added
            } else {
                0
            },
            final(self).mem == old(self).mem,
            final(self).prog.defines == defines,
    {
        self.prog.defines = defines;
        let mut lexer_ctx = RvmLexerCtx::new();
        lexer_ctx.rvm_lex(source, &self.prog.defines);
        assert(lexer_ctx@ =~= lex_spec(source@, defines@));
        self.rvm_assemble(&lexer_ctx.tokens)
    }
}

/// A context that has taken over the definitions `defines`.
pub open spec fn defined(ctx: CtxView, defines: RvmHtabCtx) -> CtxView {
    CtxView { prog: ProgramView { defines: defines@, ..ctx.prog }, ..ctx }
}

} // verus!
