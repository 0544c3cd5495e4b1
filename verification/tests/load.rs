use rvm::rvm::RvmCtx;
use rvm::rvm::RvmRun;
use rvm::rvm_htab::RvmHtabCtx;
use rvm::rvm_memory::RvmRegU;
use rvm::rvm_preprocessor::RvmPreprocessor;

#[test]
fn a_source_is_loaded_and_run() {
    let source = "\
# count to the bound
start:  mov eax, 0
        mov ebx, 5
loop:   inc eax
        cmp eax, ebx
        jne loop
        prn eax
";
    let mut ctx = RvmCtx::new();
    assert_eq!(ctx.rvm_vm_interpret(source, RvmHtabCtx::new()), 0);
    assert_eq!(ctx.prog.instructions, vec![2, 2, 7, 21, 26, 31, -1]);
    assert_eq!(ctx.rvm_vm_run(1000), RvmRun::Halted);
    assert_eq!(ctx.console, vec![5]);
}

#[test]
fn definitions_are_used_when_loading() {
    let mut pre = RvmPreprocessor::new();
    let mut source = String::from("%define BOUND 11|b\n%define ACC eax\nmov ACC, BOUND\nprn ACC\n");
    while pre.process_defines(&mut source).unwrap() {}
    assert_eq!(source, "mov ACC, BOUND\nprn ACC\n");
    let mut ctx = RvmCtx::new();
    assert_eq!(ctx.rvm_vm_interpret(&source, pre.defines), 0);
    assert_eq!(ctx.prog.args, vec![vec![0, 3], vec![0], vec![]]);
    assert_eq!(ctx.prog.defines.rvm_htab_find_ref("ACC"), Some("eax".to_string()));
    assert_eq!(ctx.rvm_vm_run(10), RvmRun::Halted);
    assert_eq!(ctx.console, vec![3]);
}

#[test]
fn a_duplicate_label_fails_the_load_and_nothing_runs() {
    let mut ctx = RvmCtx::new();
    assert_eq!(ctx.rvm_vm_interpret("foo: mov eax, 1\nfoo: prn eax\n", RvmHtabCtx::new()), 1);
    assert!(ctx.prog.instructions.is_empty());
    assert!(ctx.console.is_empty());
    assert_eq!(ctx.mem.registers[0], RvmRegU::I32(0));
}

#[test]
fn a_memory_reference_outside_the_memory_fails_the_load() {
    let mut ctx = RvmCtx::new();
    assert_eq!(ctx.rvm_vm_interpret("mov eax, [-5]\n", RvmHtabCtx::new()), 1);
    assert!(ctx.prog.instructions.is_empty());
}

#[test]
fn tokens_fit_unless_there_are_too_many() {
    let ctx = RvmCtx::new();
    assert!(ctx.rvm_tokens_fit(&Vec::new()));
    assert!(ctx.rvm_tokens_fit(&vec![vec!["a".to_string(); 100]; 100]));
}

#[test]
fn assembling_tokens_is_both_passes() {
    let toks: Vec<Vec<String>> = vec![
        vec!["start:".to_string(), "push".to_string(), "1".to_string()],
        vec!["jmp".to_string(), "start".to_string()],
    ];
    let mut ctx = RvmCtx::new();
    assert_eq!(ctx.rvm_assemble(&toks), 0);
    assert_eq!(ctx.prog.instructions, vec![3, 22, -1]);
    assert_eq!(ctx.prog.args, vec![vec![1], vec![0], vec![]]);
    assert!(ctx.rvm_is_instruction(&toks[0]));
    assert!(!ctx.rvm_is_instruction(&vec!["start:".to_string()]));
    assert!(ctx.rvm_is_instruction(&vec!["push".to_string(), "".to_string()]));
    assert!(ctx.rvm_is_instruction(&vec!["".to_string(), "mov".to_string()]));
    assert!(!ctx.rvm_is_instruction(&vec!["".to_string(), "eax".to_string()]));
    assert!(!ctx.rvm_is_instruction(&Vec::new()));
    assert!(ctx.rvm_is_instruction(&vec!["x".to_string(), "ret".to_string()]));
}

#[test]
fn a_label_declared_twice_in_a_source_stops_everything() {
    let mut ctx = RvmCtx::new();
    let status = ctx.rvm_vm_interpret("foo:\nmov eax, 1\nfoo:\nprn eax\n", RvmHtabCtx::new());
    assert_ne!(status, 0);
    assert_eq!(ctx.duplicate_label, Some("foo".to_string()));
    assert!(ctx.prog.instructions.is_empty());
    assert!(ctx.prog.args.is_empty());
    assert!(ctx.prog.values.is_empty());
    assert!(ctx.console.is_empty());
    assert_eq!(ctx.mem.registers, RvmCtx::new().mem.registers);
    assert_eq!(ctx.mem.flags, 0);
}
