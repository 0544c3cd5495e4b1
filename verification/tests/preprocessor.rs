use rvm::rvm_preprocessor::RvmDefineError;
use rvm::rvm_preprocessor::RvmInclude;
use rvm::rvm_preprocessor::RvmPreAction;
use rvm::rvm_preprocessor::RvmPreEvent;
use rvm::rvm_preprocessor::RvmPreprocessor;

fn asks_for(start: usize, end: usize, name: &str) -> RvmPreAction {
    RvmPreAction::Include(RvmInclude { start, end, name: name.to_string() })
}

#[test]
fn new_preprocessor_defines_nothing() {
    let p = RvmPreprocessor::new();
    assert_eq!(p.defines.rvm_htab_len(), 0);
    assert_eq!(p.defines.rvm_htab_find("X"), None);
}

#[test]
fn a_definition_is_recorded_and_its_line_removed() {
    let mut p = RvmPreprocessor::new();
    let mut src = String::from("mov eax, FIVE\n%define FIVE 5\nprn eax\n");
    assert_eq!(p.process_defines(&mut src), Ok(true));
    assert_eq!(src, "mov eax, FIVE\nprn eax\n");
    assert_eq!(p.defines.rvm_htab_find("FIVE"), Some(0));
    assert_eq!(p.defines.rvm_htab_find_ref("FIVE"), Some("5".to_string()));
    assert_eq!(p.process_defines(&mut src), Ok(false));
    assert_eq!(src, "mov eax, FIVE\nprn eax\n");
}

#[test]
fn a_definition_on_the_last_line_needs_no_line_break() {
    let mut p = RvmPreprocessor::new();
    let mut src = String::from("a\n%define K  some text  ");
    assert_eq!(p.process_defines(&mut src), Ok(true));
    assert_eq!(src, "a\n");
    assert_eq!(p.defines.rvm_htab_find_ref("K"), Some("some text".to_string()));
}

#[test]
fn a_definition_without_text_has_the_empty_text() {
    let mut p = RvmPreprocessor::new();
    let mut src = String::from("%define FLAG\nx");
    assert_eq!(p.process_defines(&mut src), Ok(true));
    assert_eq!(src, "x");
    assert_eq!(p.defines.rvm_htab_find_ref("FLAG"), Some(String::new()));
}

#[test]
fn the_key_ends_at_the_first_blank() {
    let mut p = RvmPreprocessor::new();
    let mut src = String::from("%define A\tB C D\n");
    assert_eq!(p.process_defines(&mut src), Ok(true));
    assert_eq!(p.defines.rvm_htab_find_ref("A\tB"), Some("C D".to_string()));
    assert_eq!(src, "");
}

#[test]
fn a_definition_without_a_key_is_refused() {
    let mut p = RvmPreprocessor::new();
    let mut src = String::from("x\n%define   \ny");
    assert_eq!(p.process_defines(&mut src), Err(RvmDefineError::MissingArguments));
    assert_eq!(src, "x\n%define   \ny");
    let mut src = String::from("%define");
    assert_eq!(p.process_defines(&mut src), Err(RvmDefineError::MissingArguments));
}

#[test]
fn a_second_definition_of_a_key_is_refused() {
    let mut p = RvmPreprocessor::new();
    let mut src = String::from("%define X 1\n%define X 2\n");
    assert_eq!(p.process_defines(&mut src), Ok(true));
    assert_eq!(
        p.process_defines(&mut src),
        Err(RvmDefineError::MultipleDefinitions("X".to_string()))
    );
    assert_eq!(src, "%define X 2\n");
    assert_eq!(p.defines.rvm_htab_find_ref("X"), Some("1".to_string()));
}

#[test]
fn definitions_are_found_in_the_middle_of_a_line() {
    let mut p = RvmPreprocessor::new();
    let mut src = String::from("prefix %define K v\nrest");
    assert_eq!(p.process_defines(&mut src), Ok(true));
    assert_eq!(src, "prefix rest");
    assert_eq!(p.defines.rvm_htab_find_ref("K"), Some("v".to_string()));
}

#[test]
fn the_first_inclusion_is_found() {
    assert_eq!(RvmPreprocessor::next_include("mov eax, 1\n"), None);
    assert_eq!(
        RvmPreprocessor::next_include("a\n%include  lib/io \nb\n%include other\n"),
        Some(RvmInclude { start: 2, end: 19, name: "lib/io".to_string() })
    );
    assert_eq!(
        RvmPreprocessor::next_include("é%include x"),
        Some(RvmInclude { start: 1, end: 11, name: "x".to_string() })
    );
    assert_eq!(
        RvmPreprocessor::next_include("%include"),
        Some(RvmInclude { start: 0, end: 8, name: String::new() })
    );
}

#[test]
fn an_inclusion_is_replaced_by_the_file() {
    let mut src = String::from("a\n%include lib\nb\n");
    let at = RvmPreprocessor::next_include(&src).unwrap();
    RvmPreprocessor::splice_include(&mut src, &at, "x\ny");
    assert_eq!(src, "a\nx\ny\nb\n");
    assert_eq!(RvmPreprocessor::next_include(&src), None);
}

#[test]
fn preprocessing_without_directives_is_done_at_once() {
    let mut p = RvmPreprocessor::new();
    let mut src = String::from("mov eax, 1\n");
    assert_eq!(p.rvm_preprocess(&mut src, RvmPreEvent::Start), RvmPreAction::Done);
    assert_eq!(src, "mov eax, 1\n");
}

#[test]
fn preprocessing_takes_out_all_definitions() {
    let mut p = RvmPreprocessor::new();
    let mut src = String::from("%define A 1\nmov eax, A\n%define B 2\n%define C\nprn B");
    assert_eq!(p.rvm_preprocess(&mut src, RvmPreEvent::Start), RvmPreAction::Done);
    assert_eq!(src, "mov eax, A\nprn B");
    assert_eq!(p.defines.rvm_htab_find_ref("A"), Some("1".to_string()));
    assert_eq!(p.defines.rvm_htab_find_ref("B"), Some("2".to_string()));
    assert_eq!(p.defines.rvm_htab_find_ref("C"), Some(String::new()));
    assert_eq!(p.defines.rvm_htab_len(), 3);
}

#[test]
fn preprocessing_asks_for_included_files_in_turn() {
    let mut p = RvmPreprocessor::new();
    let mut src = String::from("%define A 1\n%include one\n%define B 2\nend\n");
    // the first round looks for an inclusion before it takes a definition
    assert_eq!(p.rvm_preprocess(&mut src, RvmPreEvent::Start), asks_for(12, 24, "one"));
    assert_eq!(p.defines.rvm_htab_len(), 0);
    // the file is spliced in, one definition is taken, and the next round
    // finds the inclusion that came with the file
    let action = p.rvm_preprocess(
        &mut src,
        RvmPreEvent::Read("%define C 3\n%include two\nbody".to_string()),
    );
    assert_eq!(src, "%define C 3\n%include two\nbody\n%define B 2\nend\n");
    assert_eq!(action, asks_for(12, 24, "two"));
    assert_eq!(p.defines.rvm_htab_find_ref("A"), Some("1".to_string()));
    assert_eq!(p.defines.rvm_htab_len(), 1);
    let action = p.rvm_preprocess(&mut src, RvmPreEvent::Read("x".to_string()));
    assert_eq!(action, RvmPreAction::Done);
    assert_eq!(src, "x\nbody\nend\n");
    assert_eq!(p.defines.rvm_htab_find_ref("C"), Some("3".to_string()));
    assert_eq!(p.defines.rvm_htab_find_ref("B"), Some("2".to_string()));
    assert_eq!(p.defines.rvm_htab_len(), 3);
}

#[test]
fn a_file_that_cannot_be_read_fails_preprocessing() {
    let mut p = RvmPreprocessor::new();
    let mut src = String::from("%include missing\n%define A 1\n");
    assert_eq!(p.rvm_preprocess(&mut src, RvmPreEvent::Start), asks_for(0, 16, "missing"));
    assert_eq!(
        p.rvm_preprocess(&mut src, RvmPreEvent::Unreadable),
        RvmPreAction::Failed(RvmDefineError::UnreadableInclude)
    );
    assert_eq!(src, "%include missing\n%define A 1\n");
    assert_eq!(p.defines.rvm_htab_len(), 0);
}

#[test]
fn a_file_that_cannot_be_read_fails_after_definitions_too() {
    let mut p = RvmPreprocessor::new();
    let mut src = String::from("%include one\n%define A 1\n");
    assert_eq!(p.rvm_preprocess(&mut src, RvmPreEvent::Start), asks_for(0, 12, "one"));
    let action = p.rvm_preprocess(&mut src, RvmPreEvent::Read("%include two".to_string()));
    assert_eq!(action, asks_for(0, 12, "two"));
    assert_eq!(p.defines.rvm_htab_len(), 1);
    assert_eq!(
        p.rvm_preprocess(&mut src, RvmPreEvent::Unreadable),
        RvmPreAction::Failed(RvmDefineError::UnreadableInclude)
    );
    assert_eq!(src, "%include two\n");
    assert_eq!(p.defines.rvm_htab_len(), 1);
}

#[test]
fn a_refused_definition_fails_preprocessing() {
    let mut p = RvmPreprocessor::new();
    let mut src = String::from("%define A 1\n%define A 2\n%define B 3\n");
    assert_eq!(
        p.rvm_preprocess(&mut src, RvmPreEvent::Start),
        RvmPreAction::Failed(RvmDefineError::MultipleDefinitions("A".to_string()))
    );
    assert_eq!(src, "%define A 2\n%define B 3\n");
    let mut p = RvmPreprocessor::new();
    let mut src = String::from("x\n%define\n");
    assert_eq!(
        p.rvm_preprocess(&mut src, RvmPreEvent::Start),
        RvmPreAction::Failed(RvmDefineError::MissingArguments)
    );
}

#[test]
fn a_text_without_an_inclusion_to_replace_is_ignored() {
    let mut p = RvmPreprocessor::new();
    let mut src = String::from("%define A 1\nx");
    assert_eq!(
        p.rvm_preprocess(&mut src, RvmPreEvent::Read("ignored".to_string())),
        RvmPreAction::Done
    );
    assert_eq!(src, "x");
}
