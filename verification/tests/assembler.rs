use rvm::rvm::RvmCtx;
use rvm::rvm::RvmRun;
use rvm::rvm_memory::RvmFault;
use rvm::rvm_memory::RvmRegU;

fn lines(src: &[&[&str]]) -> Vec<Vec<String>> {
    src.iter().map(|l| l.iter().map(|t| t.to_string()).collect()).collect()
}

fn assemble(ctx: &mut RvmCtx, src: &[&[&str]]) -> i32 {
    let toks = lines(src);
    let r = ctx.rvm_parse_labels(&toks);
    if r != 0 {
        return r;
    }
    ctx.rvm_parse_program(&toks)
}

#[test]
fn opcode_positions() {
    assert_eq!(RvmCtx::instr_to_opcode("nop"), 0);
    assert_eq!(RvmCtx::instr_to_opcode("mov"), 2);
    assert_eq!(RvmCtx::instr_to_opcode("cmp"), 21);
    assert_eq!(RvmCtx::instr_to_opcode("ret"), 24);
    assert_eq!(RvmCtx::instr_to_opcode("prn"), 31);
    assert_eq!(RvmCtx::instr_to_opcode("MOV"), -1);
    assert_eq!(RvmCtx::instr_to_opcode(""), -1);
    assert_eq!(RvmCtx::instr_to_opcode("eax"), -1);
}

#[test]
fn register_slots() {
    let ctx = RvmCtx::new();
    assert_eq!(ctx.token_to_register("eax"), Some(0));
    assert_eq!(ctx.token_to_register("edi"), Some(5));
    assert_eq!(ctx.token_to_register("eip"), Some(8));
    assert_eq!(ctx.token_to_register("r15"), Some(16));
    // the stack registers hold addresses, not plain integers
    assert_eq!(ctx.token_to_register("esp"), None);
    assert_eq!(ctx.token_to_register("ebp"), None);
    assert_eq!(ctx.token_to_register("r16"), None);
}

#[test]
fn literal_forms() {
    let mut ctx = RvmCtx::new();
    assert_eq!(ctx.rvm_parse_value("42"), 42);
    assert_eq!(ctx.rvm_parse_value("-42"), -42);
    assert_eq!(ctx.rvm_parse_value("+7"), 7);
    assert_eq!(ctx.rvm_parse_value("101|b"), 5);
    assert_eq!(ctx.rvm_parse_value("ff|h"), 255);
    assert_eq!(ctx.rvm_parse_value("FF|hex"), 255);
    assert_eq!(ctx.rvm_parse_value("12|d"), 12);
    assert_eq!(ctx.rvm_parse_value("12|"), 12);
    assert_eq!(ctx.rvm_parse_value("2147483647"), i32::MAX);
    assert_eq!(ctx.rvm_parse_value("-2147483648"), i32::MIN);
    assert_eq!(ctx.rvm_parse_value("0000000000000000000017"), 17);
    assert!(ctx.rejected.is_empty());
}

#[test]
fn malformed_literals_count_as_zero_and_are_recorded() {
    let mut ctx = RvmCtx::new();
    assert_eq!(ctx.rvm_parse_value("5|b"), 0);
    assert_eq!(ctx.rvm_parse_value(""), 0);
    assert_eq!(ctx.rvm_parse_value("-"), 0);
    assert_eq!(ctx.rvm_parse_value("12a"), 0);
    assert_eq!(ctx.rvm_parse_value("2147483648"), 0);
    assert_eq!(ctx.rvm_parse_value("-2147483649"), 0);
    assert_eq!(ctx.rvm_parse_value("99999999999999999999999"), 0);
    assert_eq!(ctx.rvm_parse_value("|h"), 0);
    assert_eq!(ctx.rvm_parse_value("1_000"), 0);
    assert_eq!(ctx.rvm_parse_value(" 1"), 0);
    assert_eq!(
        ctx.rejected,
        vec![
            "5|b", "", "-", "12a", "2147483648", "-2147483649", "99999999999999999999999", "|h",
            "1_000", " 1"
        ]
    );
}

#[test]
fn literals_agree_with_std() {
    let mut ctx = RvmCtx::new();
    for s in ["0", "-0", "+0", "9", "-1", "123456", "+123456", "x", "--1", "+-1", "1-", "١"] {
        let expected = s.parse::<i32>().unwrap_or(0);
        assert_eq!(ctx.rvm_parse_value(s), expected, "{}", s);
    }
    for (digits, tag, radix) in [("zz", "h", 16), ("7f", "h", 16), ("-7F", "h", 16),
        ("102", "b", 2), ("-1111", "b", 2), ("+10", "b", 2), ("80000000", "h", 16),
        ("-80000000", "h", 16), ("7fffffff", "h", 16)] {
        let expected = i32::from_str_radix(digits, radix).unwrap_or(0);
        let text = format!("{}|{}", digits, tag);
        assert_eq!(ctx.rvm_parse_value(&text), expected, "{}", text);
    }
}

#[test]
fn round_trip_arithmetic() {
    let mut ctx = RvmCtx::new();
    let r = assemble(
        &mut ctx,
        &[
            &["start:", "mov", "eax", "", "101|b"],
            &["prn", "eax"],
            &["mov", "eax", "", "ff|h"],
            &["prn", "eax"],
        ],
    );
    assert_eq!(r, 0);
    assert_eq!(ctx.rvm_vm_run(100), RvmRun::Halted);
    assert_eq!(ctx.console, vec![5, 255]);
}

#[test]
fn binary_tag_with_a_non_binary_digit_is_malformed() {
    let mut ctx = RvmCtx::new();
    let r = assemble(&mut ctx, &[&["mov", "eax", "5|b"], &["prn", "eax"]]);
    assert_eq!(r, 0);
    assert_eq!(ctx.rejected, vec!["5|b"]);
    assert_eq!(ctx.rvm_vm_run(100), RvmRun::Halted);
    assert_eq!(ctx.console, vec![0]);
}

#[test]
fn control_flow_counts_to_the_bound() {
    let mut ctx = RvmCtx::new();
    let r = assemble(
        &mut ctx,
        &[
            &["start:", "mov", "eax", "", "0"],
            &["mov", "ebx", "", "5"],
            &["loop:", "inc", "eax"],
            &["cmp", "eax", "", "ebx"],
            &["jne", "loop"],
            &["prn", "eax"],
        ],
    );
    assert_eq!(r, 0);
    assert_eq!(ctx.prog.instructions, vec![2, 2, 7, 21, 26, 31, -1]);
    assert_eq!(
        ctx.prog.args,
        vec![vec![0, 0], vec![1, 5], vec![0], vec![0, 1], vec![2], vec![0], vec![]]
    );
    assert_eq!(ctx.prog.labels.rvm_htab_find("start"), Some(0));
    assert_eq!(ctx.prog.labels.rvm_htab_find("loop"), Some(2));
    assert_eq!(ctx.prog.start, 0);
    assert_eq!(ctx.rvm_vm_run(1000), RvmRun::Halted);
    assert_eq!(ctx.console, vec![5]);
    assert_eq!(ctx.mem.registers[0], RvmRegU::I32(5));
}

#[test]
fn comparing_with_a_number_compares_with_that_slot() {
    // the second operand of cmp designates a register slot: 5 is edi
    let mut ctx = RvmCtx::new();
    let r = assemble(
        &mut ctx,
        &[
            &["start:", "mov", "eax", "0"],
            &["mov", "edi", "3"],
            &["loop:", "inc", "eax"],
            &["cmp", "eax", "5"],
            &["jne", "loop"],
            &["prn", "eax"],
        ],
    );
    assert_eq!(r, 0);
    assert_eq!(ctx.rvm_vm_run(1000), RvmRun::Halted);
    assert_eq!(ctx.console, vec![3]);
}

#[test]
fn stack_discipline_from_source() {
    let mut ctx = RvmCtx::new();
    let r = assemble(
        &mut ctx,
        &[&["push", "7"], &["push", "9"], &["pop", "eax"], &["pop", "ebx"]],
    );
    assert_eq!(r, 0);
    assert_eq!(ctx.rvm_vm_run(100), RvmRun::Halted);
    assert_eq!(ctx.mem.registers[0], RvmRegU::I32(9));
    assert_eq!(ctx.mem.registers[1], RvmRegU::I32(7));
}

#[test]
fn call_and_return() {
    let mut ctx = RvmCtx::new();
    let r = assemble(
        &mut ctx,
        &[
            &["start:", "mov", "eax", "1"],
            &["call", "twice"],
            &["prn", "eax"],
            &["jmp", "done"],
            &["twice:", "add", "eax", "eax"],
            &["mul", "eax", "10"],
            &["ret"],
            &["done:"],
        ],
    );
    assert_eq!(r, 0);
    assert_eq!(ctx.prog.instructions, vec![2, 23, 31, 22, 9, 11, 24, -1]);
    assert_eq!(ctx.prog.labels.rvm_htab_find("twice"), Some(4));
    assert_eq!(ctx.prog.labels.rvm_htab_find("done"), Some(7));
    assert_eq!(ctx.rvm_vm_run(100), RvmRun::Halted);
    // add eax, eax adds the operand value 0 (the slot of eax); mul by 10
    assert_eq!(ctx.console, vec![10]);
    assert_eq!(ctx.mem.registers[6], RvmRegU::I32ADDR(2 * 1024 * 1024));
}

#[test]
fn duplicate_label_fails_assembly() {
    let mut ctx = RvmCtx::new();
    let toks = lines(&[&["foo:", "mov", "eax", "1"], &["foo:", "prn", "eax"]]);
    assert_eq!(ctx.rvm_parse_labels(&toks), 1);
    assert!(ctx.prog.instructions.is_empty());
    assert!(ctx.console.is_empty());
    assert_eq!(ctx.prog.labels.rvm_htab_find("foo"), Some(0));
    assert_eq!(ctx.duplicate_label, Some("foo".to_string()));
}

#[test]
fn every_line_with_a_mnemonic_is_an_instruction_line() {
    let mut ctx = RvmCtx::new();
    let r = assemble(
        &mut ctx,
        &[
            &["mov"],
            &["a:", "inc", "eax"],
            &["dec", "", ""],
            &["b:", "nop"],
            &["c:"],
            &["comment", "only"],
            &["d:", "ret"],
        ],
    );
    assert_eq!(r, 0);
    assert_eq!(ctx.prog.instructions, vec![2, 7, 8, 0, 24, -1]);
    assert_eq!(ctx.prog.args, vec![vec![], vec![0], vec![], vec![], vec![], vec![]]);
    assert_eq!(ctx.prog.labels.rvm_htab_find("a"), Some(1));
    assert_eq!(ctx.prog.labels.rvm_htab_find("b"), Some(3));
    assert_eq!(ctx.prog.labels.rvm_htab_find("c"), Some(4));
    assert_eq!(ctx.prog.labels.rvm_htab_find("d"), Some(4));
    // an instruction without the operands it needs does nothing when it runs
    assert_eq!(ctx.rvm_step(0), Ok(1));
    assert_eq!(ctx.rvm_step(2), Ok(3));
    assert_eq!(ctx.mem.registers, RvmCtx::new().mem.registers);
}

#[test]
fn a_label_behind_a_bare_mnemonic_names_the_next_instruction() {
    let mut ctx = RvmCtx::new();
    let r = assemble(&mut ctx, &[&["mov"], &["x:"], &["inc", "eax"], &["prn", "eax"]]);
    assert_eq!(r, 0);
    assert_eq!(ctx.prog.labels.rvm_htab_find("x"), Some(1));
    assert_eq!(ctx.prog.instructions, vec![2, 7, 31, -1]);
    assert_eq!(ctx.prog.instructions[1], RvmCtx::instr_to_opcode("inc"));
    assert_eq!(ctx.prog.args, vec![vec![], vec![0], vec![0], vec![]]);
    assert_eq!(ctx.rvm_vm_run(10), RvmRun::Halted);
    assert_eq!(ctx.console, vec![1]);
}

#[test]
fn memory_reference_reads_a_byte() {
    let mut ctx = RvmCtx::new();
    ctx.mem.mem_space[16] = 200;
    ctx.mem.mem_space[0] = 9;
    let toks = lines(&[&["mov", "eax", "[16]"], &["mov", "ebx", "[10|h]"], &["mov", "ecx", "[x]"]]);
    assert_eq!(ctx.rvm_parse_program(&toks), 0);
    assert_eq!(ctx.prog.args, vec![vec![0, 200], vec![1, 200], vec![2, 9], vec![]]);
    assert_eq!(ctx.rejected, vec!["x"]);
    assert!(ctx.prog.values.is_empty());
}

#[test]
fn memory_reference_outside_the_memory_fails() {
    let mut ctx = RvmCtx::new();
    let toks = lines(&[&["mov", "eax", "1"], &["mov", "eax", "[67108864]"], &["prn", "eax"]]);
    assert_eq!(ctx.rvm_parse_program(&toks), 1);
    assert_eq!(ctx.prog.instructions, vec![2]);
    let mut ctx = RvmCtx::new();
    let r = ctx.rvm_parse_args(&vec!["mov".to_string(), "[-1]".to_string()], 0);
    assert_eq!(r, Err(RvmFault::MemoryFault));
    let r = ctx.rvm_parse_args(&vec!["mov".to_string(), "[67108863]".to_string()], 0);
    assert_eq!(r, Ok(vec![0]));
}

#[test]
fn labels_and_literals_go_to_the_pool() {
    let mut ctx = RvmCtx::new();
    let r = assemble(&mut ctx, &[&["top:", "mov", "eax", "7"], &["jmp", "top"], &["push", "3"]]);
    assert_eq!(r, 0);
    assert_eq!(ctx.prog.values, vec![7, 0, 3]);
    assert_eq!(ctx.rvm_add_value(11), 11);
    assert_eq!(ctx.prog.values, vec![7, 0, 3, 11]);
}

#[test]
fn parse_instr_finds_the_first_mnemonic() {
    let ctx = RvmCtx::new();
    let line: Vec<String> = ["x:", "", "add", "mov", "1"].iter().map(|t| t.to_string()).collect();
    assert_eq!(ctx.rvm_parse_instr(&line), (9, 2));
    let line: Vec<String> = ["x:", "y"].iter().map(|t| t.to_string()).collect();
    assert_eq!(ctx.rvm_parse_instr(&line), (-1, 0));
    assert_eq!(ctx.rvm_parse_instr(&Vec::new()), (-1, 0));
}

#[test]
fn token_is_cut_at_a_line_break() {
    let mut ctx = RvmCtx::new();
    let r = ctx.rvm_parse_args(&vec!["mov".to_string(), "ebx\nrest".to_string(), "12\n".to_string()], 0);
    assert_eq!(r, Ok(vec![1, 12]));
}

#[test]
fn entry_point_follows_the_start_label() {
    let mut ctx = RvmCtx::new();
    let r = assemble(
        &mut ctx,
        &[&["prn", "eax"], &["start:", "mov", "eax", "4"], &["prn", "eax"]],
    );
    assert_eq!(r, 0);
    assert_eq!(ctx.prog.start, 1);
    assert_eq!(ctx.rvm_vm_run(100), RvmRun::Halted);
    assert_eq!(ctx.console, vec![4]);
    assert_eq!(ctx.mem.registers[8], RvmRegU::I32(1));
}

#[test]
fn assembling_twice_gives_the_same_program() {
    let src: &[&[&str]] = &[
        &["start:", "mov", "eax", "0"],
        &["l:", "inc", "eax"],
        &["cmp", "eax", "ebx"],
        &["jne", "l"],
        &["push", "zz"],
    ];
    let mut a = RvmCtx::new();
    let mut b = RvmCtx::new();
    assert_eq!(assemble(&mut a, src), assemble(&mut b, src));
    assert_eq!(a.prog.instructions, b.prog.instructions);
    assert_eq!(a.prog.args, b.prog.args);
    assert_eq!(a.prog.values, b.prog.values);
    assert_eq!(a.prog.start, b.prog.start);
    assert_eq!(a.rejected, b.rejected);
    for name in ["start", "l", "zz"] {
        assert_eq!(a.prog.labels.rvm_htab_find(name), b.prog.labels.rvm_htab_find(name));
    }
}

#[test]
fn loops_with_every_conditional_jump() {
    // counts eax up from 0 while the condition against ebx = 3 holds
    for (jump, printed) in [("jl", 3), ("jle", 4), ("jne", 3)] {
        let mut ctx = RvmCtx::new();
        let r = assemble(
            &mut ctx,
            &[
                &["start:", "mov", "ebx", "3"],
                &["again:", "inc", "eax"],
                &["cmp", "eax", "ebx"],
                &[jump, "again"],
                &["prn", "eax"],
            ],
        );
        assert_eq!(r, 0);
        assert_eq!(ctx.rvm_vm_run(1000), RvmRun::Halted);
        assert_eq!(ctx.console, vec![printed], "{}", jump);
    }
    // counts eax down from 5 while the condition against ebx = 3 holds
    for (jump, printed) in [("jg", 3), ("jge", 2)] {
        let mut ctx = RvmCtx::new();
        let r = assemble(
            &mut ctx,
            &[
                &["start:", "mov", "ebx", "3"],
                &["mov", "eax", "5"],
                &["again:", "dec", "eax"],
                &["cmp", "eax", "ebx"],
                &[jump, "again"],
                &["prn", "eax"],
            ],
        );
        assert_eq!(r, 0);
        assert_eq!(ctx.rvm_vm_run(1000), RvmRun::Halted);
        assert_eq!(ctx.console, vec![printed], "{}", jump);
    }
    // je leaves the loop at once unless the two are equal
    let mut ctx = RvmCtx::new();
    let r = assemble(
        &mut ctx,
        &[
            &["start:", "mov", "ebx", "1"],
            &["again:", "inc", "eax"],
            &["cmp", "eax", "ebx"],
            &["je", "again"],
            &["prn", "eax"],
        ],
    );
    assert_eq!(r, 0);
    assert_eq!(ctx.rvm_vm_run(1000), RvmRun::Halted);
    assert_eq!(ctx.console, vec![2]);
}

#[test]
fn labels_that_are_all_different_pass() {
    let mut ctx = RvmCtx::new();
    let toks = lines(&[&["a:", "b:", "nop"], &["c:"], &["start:", "d:", "ret"], &["e:"]]);
    assert_eq!(ctx.rvm_parse_labels(&toks), 0);
    for (name, addr) in [("a", 0), ("b", 0), ("c", 1), ("start", 1), ("d", 1), ("e", 2)] {
        assert_eq!(ctx.prog.labels.rvm_htab_find(name), Some(addr));
    }
    assert_eq!(ctx.prog.labels.rvm_htab_len(), 6);
}

#[test]
fn a_label_declared_twice_on_one_line_fails() {
    let mut ctx = RvmCtx::new();
    let toks = lines(&[&["a:", "nop"], &["b:", "x", "b:", "nop"], &["c:"]]);
    assert_eq!(ctx.rvm_parse_labels(&toks), 1);
    assert_eq!(ctx.duplicate_label, Some("b".to_string()));
    assert_eq!(ctx.prog.labels.rvm_htab_find("a"), Some(0));
    assert_eq!(ctx.prog.labels.rvm_htab_find("b"), Some(1));
    assert_eq!(ctx.prog.labels.rvm_htab_find("c"), None);
}

#[test]
fn a_label_that_is_in_the_table_already_fails() {
    let mut ctx = RvmCtx::new();
    assert_eq!(ctx.rvm_parse_labels(&lines(&[&["a:", "nop"]])), 0);
    assert_eq!(ctx.duplicate_label, None);
    assert_eq!(ctx.rvm_parse_labels(&lines(&[&["b:", "nop"], &["a:"]])), 1);
    assert_eq!(ctx.duplicate_label, Some("a".to_string()));
    // a pass that goes through forgets the culprit of the one before
    assert_eq!(ctx.rvm_parse_labels(&lines(&[&["c:"]])), 0);
    assert_eq!(ctx.duplicate_label, None);
}
