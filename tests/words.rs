use mclang::args::{Args, UnknownOptLevel};
use mclang::constants::{InstructionType, KeywordType, Loc, OpType, Operator, Token, TokenType};
use mclang::errors::missing_main_fn;
use mclang::interpret::pre_run;
use mclang::parser::{lookup_word, to_operators, ParseError};
use mclang::precompiler::{precompile, PrecompileError};
use mclang::text::{mangle, parse_uint, str_eq};

fn here() -> Loc {
    Loc { file: String::from("t.mcl"), line: 1, col: 0 }
}

fn op(t: OpType, v: usize) -> Operator {
    Operator::new(t, TokenType::Word, v, String::from("w"), String::from("t.mcl"), 1, 0)
}

fn pushed(v: usize) -> Operator {
    op(OpType::Instruction(InstructionType::PushInt), v)
}

fn ins(t: InstructionType) -> Operator {
    op(OpType::Instruction(t), 0)
}

#[test]
fn parse_uint_follows_unsigned_literals() {
    assert_eq!(parse_uint("42"), Some(42));
    assert_eq!(parse_uint("+7"), Some(7));
    assert_eq!(parse_uint("007"), Some(7));
    assert_eq!(parse_uint(""), None);
    assert_eq!(parse_uint("+"), None);
    assert_eq!(parse_uint("-1"), None);
    assert_eq!(parse_uint("12a"), None);
    assert_eq!(parse_uint("18446744073709551615"), Some(18446744073709551615));
    assert_eq!(parse_uint("18446744073709551616"), None);
}

#[test]
fn lookup_word_table() {
    let l = here();
    assert_eq!(lookup_word("123", &l), OpType::Instruction(InstructionType::PushInt));
    assert_eq!(lookup_word("dup", &l), OpType::Instruction(InstructionType::Dup));
    assert_eq!(lookup_word("_dbg_print", &l), OpType::Instruction(InstructionType::Print));
    assert_eq!(lookup_word("cast(ptr)", &l), OpType::Instruction(InstructionType::CastPtr));
    assert_eq!(lookup_word("while", &l), OpType::Keyword(KeywordType::While));
    assert_eq!(lookup_word("then", &l), OpType::Keyword(KeywordType::FunctionThen));
    assert_eq!(lookup_word("syscall3", &l), OpType::Instruction(InstructionType::Syscall3));
    assert_eq!(lookup_word("puts", &l), OpType::Instruction(InstructionType::Unresolved));
    assert_eq!(lookup_word("Dup", &l), OpType::Instruction(InstructionType::Unresolved));
}

#[test]
fn mangle_rewrites_parentheses() {
    assert_eq!(mangle("cast(int)"), "cast__OP_PAREN__int__CL_PAREN__");
    assert_eq!(mangle("plain"), "plain");
    assert_eq!(mangle(""), "");
    assert!(str_eq("abc", "abc"));
    assert!(!str_eq("abc", "abd"));
}

#[test]
fn precompile_arithmetic() {
    assert_eq!(precompile(&vec![pushed(4), pushed(8), ins(InstructionType::Mul)]).unwrap(), vec![32]);
    assert_eq!(precompile(&vec![pushed(10), pushed(3), ins(InstructionType::Minus)]).unwrap(), vec![7]);
    assert_eq!(precompile(&vec![pushed(10), pushed(3), ins(InstructionType::DivMod)]).unwrap(), vec![3, 1]);
    assert_eq!(precompile(&vec![pushed(1), pushed(4), ins(InstructionType::Shl)]).unwrap(), vec![16]);
    assert_eq!(precompile(&vec![pushed(16), pushed(2), ins(InstructionType::Shr)]).unwrap(), vec![4]);
    assert_eq!(precompile(&vec![pushed(12), pushed(10), ins(InstructionType::Band)]).unwrap(), vec![8]);
    assert_eq!(precompile(&vec![pushed(12), pushed(3), ins(InstructionType::Bor)]).unwrap(), vec![15]);
    assert_eq!(precompile(&vec![pushed(2), pushed(3), ins(InstructionType::Lt)]).unwrap(), vec![1]);
    assert_eq!(precompile(&vec![pushed(2), pushed(3), ins(InstructionType::Ge)]).unwrap(), vec![0]);
    assert_eq!(precompile(&vec![pushed(1), pushed(2), pushed(3), ins(InstructionType::Rot)]).unwrap(), vec![2, 3, 1]);
    assert_eq!(precompile(&vec![pushed(1), pushed(2), ins(InstructionType::Over)]).unwrap(), vec![1, 2, 1]);
    assert_eq!(precompile(&vec![pushed(1), pushed(2), ins(InstructionType::Swap)]).unwrap(), vec![2, 1]);
    assert_eq!(precompile(&vec![pushed(5), ins(InstructionType::Dup)]).unwrap(), vec![5, 5]);
    assert_eq!(precompile(&vec![ins(InstructionType::Drop)]).unwrap(), Vec::<usize>::new());
}

#[test]
fn precompile_errors() {
    assert!(matches!(precompile(&vec![pushed(1), ins(InstructionType::Plus)]), Err(PrecompileError::StackUnderflow(_))));
    assert!(matches!(precompile(&vec![pushed(1), pushed(2), ins(InstructionType::Minus)]), Err(PrecompileError::Overflow(_))));
    assert!(matches!(precompile(&vec![pushed(1), pushed(0), ins(InstructionType::DivMod)]), Err(PrecompileError::Overflow(_))));
    assert!(matches!(precompile(&vec![pushed(1), pushed(64), ins(InstructionType::Shl)]), Err(PrecompileError::Overflow(_))));
    assert!(matches!(precompile(&vec![ins(InstructionType::Print)]), Err(PrecompileError::UnsupportedInstruction(_))));
    assert!(matches!(
        precompile(&vec![op(OpType::Keyword(KeywordType::If), 0)]),
        Err(PrecompileError::UnsupportedKeyword(_))
    ));
}

fn token(text: &str, typ: TokenType) -> Token {
    Token {
        file: String::from("t.mcl"),
        line: 3,
        col: 4,
        text: String::from(text),
        typ,
        value: None,
        addr: None,
        op_typ: OpType::Instruction(InstructionType::Unresolved),
    }
}

#[test]
fn tokens_become_operators() {
    let ts = vec![
        token("12", TokenType::Int),
        token("", TokenType::Word),
        token("dup", TokenType::Word),
        token("hi", TokenType::String),
        token("A", TokenType::Char),
    ];
    let ops = to_operators(&ts).unwrap();
    assert_eq!(ops.len(), 4);
    assert_eq!(ops[0].typ, OpType::Instruction(InstructionType::PushInt));
    assert_eq!(ops[0].value, 12);
    assert_eq!(ops[1].typ, OpType::Instruction(InstructionType::Dup));
    assert_eq!(ops[1].addr, Some(0));
    assert_eq!(ops[2].typ, OpType::Instruction(InstructionType::PushStr));
    assert_eq!(ops[2].text, "hi");
    assert_eq!(ops[3].value, 65);
    assert_eq!(ops[3].loc.line, 3);
    assert_eq!(ops[3].loc.col, 4);
}

#[test]
fn bad_tokens_are_refused() {
    assert!(matches!(to_operators(&vec![token("x1", TokenType::Int)]), Err(ParseError::BadInt(_))));
    assert!(matches!(to_operators(&vec![token("ab", TokenType::Char)]), Err(ParseError::BadChar(_))));
    assert!(matches!(to_operators(&vec![token("é", TokenType::Char)]), Err(ParseError::BadChar(_))));
}

#[test]
fn human_names() {
    assert_eq!(OpType::Instruction(InstructionType::Plus).human(), "+");
    assert_eq!(OpType::Instruction(InstructionType::PushInt).human(), "Number");
    assert_eq!(OpType::Keyword(KeywordType::Function).human(), "fn");
    assert_eq!(TokenType::String.human(), "String");
    assert_eq!(TokenType::Word.human(), "Word");
}

#[test]
fn operator_constructors() {
    let o = Operator::new(
        OpType::Instruction(InstructionType::MemUse),
        TokenType::Word,
        3,
        String::from("m"),
        String::from("f.mcl"),
        2,
        5,
    );
    assert_eq!(o.jmp, 0);
    assert_eq!(o.addr, None);
    let o = o.set_addr(9);
    assert_eq!(o.addr, Some(9));
    assert_eq!(o.value, 3);
    let t = token("x", TokenType::Word);
    let l = t.loc();
    assert_eq!((l.file.as_str(), l.line, l.col), ("t.mcl", 3, 4));
}

fn args_with(level: &str) -> Args {
    Args {
        in_file: String::new(),
        out_file: String::new(),
        compile: false,
        interpret: false,
        run: false,
        quiet: false,
        search_dirs: Vec::new(),
        unsaf: false,
        optimisation: String::from(level),
    }
}

#[test]
fn optimisation_levels() {
    assert_eq!(args_with("D").get_opt_level().unwrap(), 0);
    assert_eq!(args_with("d").get_opt_level().unwrap(), 0);
    assert_eq!(args_with("0").get_opt_level().unwrap(), 1);
    assert_eq!(args_with("").get_opt_level().unwrap(), 1);
    let e: UnknownOptLevel = args_with("3").get_opt_level().unwrap_err();
    assert_eq!(e.level, "3");
}

#[test]
fn missing_main_message() {
    let m = missing_main_fn();
    assert!(m.starts_with("Main function not found"));
    assert!(m.contains("fn main with void returns void then"));
}

#[test]
fn pre_run_collects_definitions() {
    let mut mem = op(OpType::Keyword(KeywordType::Memory), 16);
    mem.addr = Some(0);
    let mut f = op(OpType::Keyword(KeywordType::FunctionDef), 0);
    f.text = String::from("main");
    let mut c = op(OpType::Keyword(KeywordType::ConstantDef), 7);
    c.text = String::from("k");
    let d = pre_run(&[mem, pushed(1), f, c]);
    assert_eq!(d.memories.len(), 1);
    assert_eq!(d.memories[0].size, 16);
    assert_eq!(d.functions.len(), 1);
    assert_eq!(d.functions[0].id, 2);
    assert_eq!(d.functions[0].name, "main");
    assert_eq!(d.constants[0].value_i, Some(7));
}
