use rvm::rvm_htab::RvmHtabCtx;
use rvm::rvm_lex::is_space_char;
use rvm::rvm_lex::RvmLexerCtx;

fn lex(source: &str, defines: &RvmHtabCtx) -> Vec<Vec<String>> {
    let mut lexer = RvmLexerCtx::new();
    lexer.rvm_lex(source, defines);
    lexer.tokens
}

#[test]
fn new_lexer_holds_no_line() {
    assert!(RvmLexerCtx::new().tokens.is_empty());
}

#[test]
fn tokens_are_cut_at_blanks_tabs_and_commas() {
    let d = RvmHtabCtx::new();
    assert_eq!(
        lex("start: mov eax, 5\n\tprn\teax\n", &d),
        vec![vec!["start:", "mov", "eax", "", "5"], vec!["prn", "eax"]]
    );
    assert_eq!(lex("a,,b", &d), vec![vec!["a", "", "b"]]);
    assert_eq!(lex(",a,", &d), vec![vec!["", "a", ""]]);
}

#[test]
fn comments_and_empty_lines_give_nothing() {
    let d = RvmHtabCtx::new();
    assert_eq!(lex("", &d), Vec::<Vec<String>>::new());
    assert_eq!(lex("\n\n   \n\t\r\n", &d), Vec::<Vec<String>>::new());
    assert_eq!(lex("# only a comment\n  # another", &d), Vec::<Vec<String>>::new());
    assert_eq!(lex("inc eax # one more\n#x\ndec eax", &d), vec![vec!["inc", "eax"], vec!["dec", "eax"]]);
    assert_eq!(lex("mov eax,1#tight", &d), vec![vec!["mov", "eax", "1"]]);
}

#[test]
fn lines_end_at_line_breaks_of_either_kind() {
    let d = RvmHtabCtx::new();
    assert_eq!(lex("a\r\nb\nc", &d), vec![vec!["a"], vec!["b"], vec!["c"]]);
    assert_eq!(lex("a\n", &d), vec![vec!["a"]]);
    assert_eq!(lex("\na", &d), vec![vec!["a"]]);
}

#[test]
fn lexing_agrees_with_std_on_a_source() {
    let d = RvmHtabCtx::new();
    let source = "  start:\tmov eax, 0 \n\n# c\nloop: inc eax#x\r\n cmp eax,ebx\u{a0}\n\u{2003}jne loop\n prn  eax";
    let expected: Vec<Vec<String>> = source
        .lines()
        .map(|line| match line.find('#') {
            Some(i) => line[..i].trim().to_string(),
            None => line.trim().to_string(),
        })
        .filter(|line| !line.is_empty())
        .map(|line| line.split([' ', '\t', ',']).map(|t| t.to_string()).collect())
        .collect();
    assert_eq!(lex(source, &d), expected);
}

#[test]
fn defined_tokens_are_replaced_by_their_text() {
    let mut d = RvmHtabCtx::new();
    d.rvm_htab_add("FIVE", 0, "5");
    d.rvm_htab_add("ACC", 0, "eax");
    d.rvm_htab_add("NOTHING", 0, "");
    assert_eq!(
        lex("mov ACC, FIVE\nprn ACC NOTHING FIVEX", &d),
        vec![vec!["mov", "eax", "", "5"], vec!["prn", "eax", "", "FIVEX"]]
    );
}

#[test]
fn a_line_gives_at_most_1024_tokens() {
    let d = RvmHtabCtx::new();
    let source = vec!["t"; 1500].join(" ");
    let toks = lex(&source, &d);
    assert_eq!(toks.len(), 1);
    assert_eq!(toks[0].len(), 1024);
    let source = vec!["t"; 1024].join(",");
    assert_eq!(lex(&source, &d)[0].len(), 1024);
    let source = vec!["t"; 1023].join(",");
    assert_eq!(lex(&source, &d)[0].len(), 1023);
}

#[test]
fn lexing_adds_behind_what_is_there() {
    let d = RvmHtabCtx::new();
    let mut lexer = RvmLexerCtx::new();
    lexer.rvm_lex("a b", &d);
    lexer.rvm_lex("c", &d);
    assert_eq!(lexer.tokens, vec![vec!["a", "b"], vec!["c"]]);
}

#[test]
fn white_space_is_what_std_calls_white_space() {
    for code in 0..0x11_0000u32 {
        if let Some(c) = char::from_u32(code) {
            assert_eq!(is_space_char(c), c.is_whitespace(), "{:x}", code);
        }
    }
}
