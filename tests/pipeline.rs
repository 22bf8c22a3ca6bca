use mclang::args::{search_path, Args};
use mclang::constants::{InstructionType, KeywordType, OpType, Operator, Token, TokenType};
use mclang::lexer::lex;
use mclang::parser::{CompileError, ParseStep, Parser};
use mclang::preprocessor::{has_unresolved_exec, PreprocessError, Preprocessor, Progress};

fn args() -> Args {
    Args {
        in_file: String::new(),
        out_file: String::new(),
        compile: false,
        interpret: false,
        run: false,
        quiet: true,
        search_dirs: vec![String::from("lib")],
        unsaf: false,
        optimisation: String::from("0"),
    }
}

fn compile(src: &str) -> Result<Vec<Operator>, CompileError> {
    let a = args();
    let tokens = lex(src, "main.mcl", &a);
    let mut p = Parser::new(tokens, &a, None);
    match p.parse()? {
        ParseStep::Done(v) => Ok(v),
        ParseStep::NeedFile(r) => panic!("unexpected request for {}", r.path),
    }
}

fn types(ops: &[Operator]) -> Vec<OpType> {
    ops.iter().map(|o| o.typ).collect()
}

#[test]
fn memory_then_const_collides() {
    match compile("memory x 8 end const x 1 end") {
        Err(CompileError::Preprocess(PreprocessError::Collision { kind, existing, first, .. })) => {
            assert_eq!(kind, KeywordType::Constant);
            assert_eq!(existing, KeywordType::Memory);
            assert_eq!(first.col, 0);
        },
        other => panic!("unexpected {:?}", other),
    }
}

#[test]
fn memory_twice_is_redefinition() {
    match compile("memory x 8 end memory x 4 end") {
        Err(CompileError::Preprocess(PreprocessError::Redefined { kind, .. })) => {
            assert_eq!(kind, KeywordType::Memory)
        },
        other => panic!("unexpected {:?}", other),
    }
}

#[test]
fn const_then_fn_collides() {
    match compile("const f 1 end fn f with void returns void then done") {
        Err(CompileError::Preprocess(PreprocessError::Collision { kind, existing, .. })) => {
            assert_eq!(kind, KeywordType::Function);
            assert_eq!(existing, KeywordType::Constant);
        },
        other => panic!("unexpected {:?}", other),
    }
}

#[test]
fn builtin_name_is_refused() {
    assert!(matches!(
        compile("memory dup 8 end"),
        Err(CompileError::Preprocess(PreprocessError::NameIsBuiltin(_)))
    ));
}

#[test]
fn memory_size_is_evaluated() {
    let ops = compile("memory buf 4 8 * end buf").unwrap();
    assert_eq!(ops.len(), 2);
    assert_eq!(ops[0].typ, OpType::Keyword(KeywordType::Memory));
    assert_eq!(ops[0].value, 32);
    assert_eq!(ops[0].addr, Some(0));
    assert_eq!(ops[1].typ, OpType::Instruction(InstructionType::MemUse));
    assert_eq!(ops[1].addr, Some(0));
}

#[test]
fn memory_size_must_be_one_number() {
    assert!(matches!(
        compile("memory buf 4 8 end"),
        Err(CompileError::Preprocess(PreprocessError::MemoryNotOneValue(_)))
    ));
}

#[test]
fn memory_without_end_is_unterminated() {
    assert!(matches!(
        compile("memory buf 4"),
        Err(CompileError::Preprocess(PreprocessError::Unterminated(_)))
    ));
}

#[test]
fn constant_is_defined_and_used() {
    let ops = compile("const size 42 end size").unwrap();
    assert_eq!(ops.len(), 2);
    assert_eq!(ops[0].typ, OpType::Keyword(KeywordType::ConstantDef));
    assert_eq!(ops[0].value, 42);
    assert_eq!(ops[0].text, "size");
    assert_eq!(ops[1].typ, OpType::Instruction(InstructionType::ConstUse));
    assert_eq!(ops[1].text, "size");
}

#[test]
fn constant_must_be_integer_and_closed() {
    assert!(matches!(
        compile("const k \"s\" end"),
        Err(CompileError::Preprocess(PreprocessError::ConstantNotInt(_)))
    ));
    assert!(matches!(
        compile("const k 1 2"),
        Err(CompileError::Preprocess(PreprocessError::ConstantNotClosed(_)))
    ));
}

#[test]
fn function_name_rules() {
    assert!(matches!(
        compile("fn 9lives with void returns void then done"),
        Err(CompileError::Preprocess(PreprocessError::NameStartsWithDigit(_)))
    ));
    assert!(matches!(
        compile("fn a.b with void returns void then done"),
        Err(CompileError::Preprocess(PreprocessError::NameHasBadChar(_, '.')))
    ));
}

#[test]
fn parenthesised_function_name_is_rewritten() {
    let ops = compile("fn to(x) with void returns void then done to(x)").unwrap();
    assert_eq!(ops[0].typ, OpType::Keyword(KeywordType::FunctionDef));
    assert_eq!(ops[0].text, "to__OP_PAREN__x__CL_PAREN__");
    let last = ops.last().unwrap();
    assert_eq!(last.typ, OpType::Instruction(InstructionType::FnCall));
    assert_eq!(last.text, "to__OP_PAREN__x__CL_PAREN__");
}

#[test]
fn function_call_is_bound() {
    let ops = compile("fn main with void returns void then 1 _dbg_print done main").unwrap();
    assert_eq!(
        types(&ops),
        vec![
            OpType::Keyword(KeywordType::FunctionDef),
            OpType::Instruction(InstructionType::With),
            OpType::Instruction(InstructionType::TypeVoid),
            OpType::Instruction(InstructionType::Returns),
            OpType::Instruction(InstructionType::TypeVoid),
            OpType::Keyword(KeywordType::FunctionThen),
            OpType::Instruction(InstructionType::PushInt),
            OpType::Instruction(InstructionType::Print),
            OpType::Keyword(KeywordType::FunctionDone),
            OpType::Instruction(InstructionType::FnCall),
        ]
    );
}

#[test]
fn inline_function_is_spliced() {
    let ops = compile("inline fn twice with int returns int then 2 * done 3 twice").unwrap();
    assert_eq!(
        types(&ops),
        vec![
            OpType::Instruction(InstructionType::PushInt),
            OpType::Instruction(InstructionType::PushInt),
            OpType::Instruction(InstructionType::Mul),
        ]
    );
    assert_eq!(ops[0].value, 3);
    assert_eq!(ops[1].value, 2);
}

#[test]
fn inline_twice_is_refused() {
    assert!(matches!(
        compile("inline inline fn f with void returns void then done"),
        Err(CompileError::Preprocess(PreprocessError::AlreadyInline(_)))
    ));
}

#[test]
fn unknown_word_is_refused() {
    match compile("1 frobnicate") {
        Err(CompileError::Preprocess(PreprocessError::UnknownWord(loc))) => assert_eq!(loc.col, 2),
        other => panic!("unexpected {:?}", other),
    }
}

#[test]
fn blocks_are_cross_referenced() {
    let ops = compile("1 2 < if 3 else 4 end").unwrap();
    assert_eq!(ops[3].jmp, 6);
    assert_eq!(ops[5].jmp, 7);
    assert_eq!(ops[7].jmp, 8);
}

#[test]
fn unclosed_block_in_source() {
    assert!(matches!(compile("1 if"), Err(CompileError::CrossRef(_))));
}

#[test]
fn oversized_number_is_an_unknown_word() {
    assert!(matches!(
        compile("99999999999999999999999"),
        Err(CompileError::Preprocess(PreprocessError::UnknownWord(_)))
    ));
}

#[test]
fn file_request_and_splice() {
    let a = args();
    let tokens = lex("1 include \"./lib.mcl\" mid", "dir/main.mcl", &a);
    let mut p = Parser::new(tokens, &a, None);
    let req = match p.parse().unwrap() {
        ParseStep::NeedFile(r) => r,
        ParseStep::Done(_) => panic!("expected a request"),
    };
    assert_eq!(req.path, "./lib.mcl");
    assert!(req.relative);
    assert_eq!(req.loc.file, "dir/main.mcl");
    p.feed_file(lex("const mid 5 end", "dir/lib.mcl", &a));
    let ops = match p.parse().unwrap() {
        ParseStep::Done(v) => v,
        ParseStep::NeedFile(_) => panic!("expected the stream"),
    };
    assert_eq!(
        types(&ops),
        vec![
            OpType::Instruction(InstructionType::PushInt),
            OpType::Keyword(KeywordType::ConstantDef),
            OpType::Instruction(InstructionType::ConstUse),
        ]
    );
}

fn compile_with_file(main: &str, lib: &str) -> Vec<Operator> {
    let a = args();
    let mut p = Parser::new(lex(main, "main.mcl", &a), &a, None);
    loop {
        match p.parse().unwrap() {
            ParseStep::Done(v) => return v,
            ParseStep::NeedFile(r) => {
                assert!(!r.relative);
                p.feed_file(lex(lib, &r.path, &a));
            },
        }
    }
}

#[test]
fn same_file_twice_is_deterministic() {
    let main = "3 include \"m.mcl\" include \"m.mcl\"";
    let first = compile_with_file(main, "2 *");
    let second = compile_with_file(main, "2 *");
    assert_eq!(
        types(&first),
        vec![
            OpType::Instruction(InstructionType::PushInt),
            OpType::Instruction(InstructionType::PushInt),
            OpType::Instruction(InstructionType::Mul),
            OpType::Instruction(InstructionType::PushInt),
            OpType::Instruction(InstructionType::Mul),
        ]
    );
    assert_eq!(first.len(), second.len());
    for (x, y) in first.iter().zip(second.iter()) {
        assert_eq!(x.typ, y.typ);
        assert_eq!(x.tok_typ, y.tok_typ);
        assert_eq!(x.value, y.value);
        assert_eq!(x.text, y.text);
        assert_eq!(x.addr, y.addr);
        assert_eq!(x.jmp, y.jmp);
        assert_eq!(x.loc.file, y.loc.file);
        assert_eq!(x.loc.line, y.loc.line);
        assert_eq!(x.loc.col, y.loc.col);
    }
}

#[test]
fn second_definition_through_file_collides() {
    let a = args();
    let mut p = Parser::new(lex("include \"std.mcl\" include \"std.mcl\"", "main.mcl", &a), &a, None);
    let mut result = None;
    for _ in 0..3 {
        match p.parse() {
            Ok(ParseStep::NeedFile(r)) => p.feed_file(lex("const k 1 end", &r.path, &a)),
            other => {
                result = Some(other);
                break;
            },
        }
    }
    assert!(matches!(
        result,
        Some(Err(CompileError::Preprocess(PreprocessError::Redefined { kind: KeywordType::Constant, .. })))
    ));
}

#[test]
fn bad_path_token() {
    assert!(matches!(compile("include 5"), Err(CompileError::Preprocess(PreprocessError::BadPath(_)))));
    assert!(matches!(compile("include"), Err(CompileError::Preprocess(PreprocessError::MissingPath(_)))));
}

#[test]
fn expansion_of_resolved_stream_is_no_op() {
    let a = args();
    let ops = compile("1 2 + _dbg_print").unwrap();
    assert!(!has_unresolved_exec(&ops));
    let pre = Preprocessor::new(Vec::new(), &a);
    let again = pre.expand_ops(&ops).unwrap();
    assert_eq!(types(&again), types(&ops));
    let (fixed, capped) = pre.expand_ops_fully(compile("1 2 + _dbg_print").unwrap()).unwrap();
    assert!(!capped);
    assert_eq!(types(&fixed), types(&ops));
}

#[test]
fn direct_preprocess_finishes() {
    let a = args();
    let tokens = lex("const k 3 end k k +", "m.mcl", &a);
    let ops = mclang::parser::to_operators(&tokens).unwrap();
    let mut pre = Preprocessor::new(ops, &a);
    match pre.preprocess().unwrap() {
        Progress::Finished { capped } => assert!(!capped),
        Progress::NeedFile(_) => panic!("no file expected"),
    }
    assert_eq!(pre.get_ops().len(), 4);
    assert_eq!(pre.get_constants().len(), 1);
    assert_eq!(pre.get_functions().len(), 0);
    assert_eq!(pre.get_memories().len(), 0);
}

#[test]
fn search_path_puts_default_last() {
    let dirs = search_path(&args());
    assert_eq!(dirs, vec![String::from("lib"), String::from("./include")]);
}

#[test]
fn definition_inside_inline_body_is_refused() {
    assert!(matches!(
        compile("inline fn f with void returns void then memory m 1 end done"),
        Err(CompileError::Preprocess(PreprocessError::DefinitionInInline(_)))
    ));
}

#[test]
fn inline_body_without_done_is_unterminated() {
    assert!(matches!(
        compile("inline fn f with void returns void then 1"),
        Err(CompileError::Preprocess(PreprocessError::Unterminated(_)))
    ));
}

#[test]
fn constant_inside_inline_body_is_bound() {
    let ops = compile("inline fn f with void returns int then const k 7 end k k + done f").unwrap();
    assert_eq!(
        types(&ops),
        vec![
            OpType::Instruction(InstructionType::PushInt),
            OpType::Instruction(InstructionType::PushInt),
            OpType::Instruction(InstructionType::Plus),
        ]
    );
    assert_eq!(ops[0].value, 7);
    assert_eq!(ops[1].value, 7);
}

#[test]
fn constant_inside_inline_body_is_checked() {
    assert!(matches!(
        compile("inline fn f with void returns void then const k 1 end const k 2 end done"),
        Err(CompileError::Preprocess(PreprocessError::Redefined { kind: KeywordType::Constant, .. }))
    ));
    assert!(matches!(
        compile("const k 1 end inline fn f with void returns void then const k 2 end done"),
        Err(CompileError::Preprocess(PreprocessError::Redefined { kind: KeywordType::Constant, .. }))
    ));
    assert!(matches!(
        compile("inline fn f with void returns void then const k x end done"),
        Err(CompileError::Preprocess(PreprocessError::ConstantNotInt(_)))
    ));
}

#[test]
fn str_is_not_reserved() {
    let ops = compile("const str 3 end str").unwrap();
    assert_eq!(ops[1].typ, OpType::Instruction(InstructionType::ConstUse));
}

#[test]
fn bad_token_fails_parse() {
    let a = args();
    let bad = Token {
        file: String::from("m.mcl"),
        line: 1,
        col: 0,
        text: String::from("ab"),
        typ: TokenType::Char,
        value: None,
        addr: None,
        op_typ: OpType::Instruction(InstructionType::Unresolved),
    };
    let mut p = Parser::new(vec![bad], &a, None);
    assert!(matches!(p.parse(), Err(CompileError::Parse(_))));
}
