use mclang::args::Args;
use mclang::constants::{InstructionType, KeywordType, OpType, Operator, TokenType, Types};
use mclang::typechecker::{typecheck, Function, TypeError, Want};

fn args(unsaf: bool) -> Args {
    Args {
        in_file: String::new(),
        out_file: String::new(),
        compile: false,
        interpret: false,
        run: false,
        quiet: true,
        search_dirs: Vec::new(),
        unsaf,
        optimisation: String::from("0"),
    }
}

fn op(t: OpType, i: usize) -> Operator {
    Operator::new(t, TokenType::Word, 0, String::from("w"), String::from("t.mcl"), 1, i)
}

fn ins(t: InstructionType, i: usize) -> Operator {
    op(OpType::Instruction(t), i)
}

fn named(t: OpType, name: &str, i: usize) -> Operator {
    Operator::new(t, TokenType::Word, 0, String::from(name), String::from("t.mcl"), 1, i)
}

fn check(ops: Vec<Operator>) -> Result<Vec<Types>, TypeError> {
    typecheck(ops, &args(false), None, Vec::new(), Vec::new()).map(|r| r.0)
}

#[test]
fn add_then_print_stack_trace() {
    let a = args(false);
    let five = vec![ins(InstructionType::PushInt, 0)];
    assert_eq!(typecheck(five, &a, None, Vec::new(), Vec::new()).unwrap().0, vec![Types::Int]);
    let two = vec![ins(InstructionType::PushInt, 0), ins(InstructionType::PushInt, 1)];
    assert_eq!(check(two).unwrap(), vec![Types::Int, Types::Int]);
    let sum = vec![ins(InstructionType::PushInt, 0), ins(InstructionType::PushInt, 1), ins(InstructionType::Plus, 2)];
    assert_eq!(check(sum).unwrap(), vec![Types::Int]);
    let all = vec![
        ins(InstructionType::PushInt, 0),
        ins(InstructionType::PushInt, 1),
        ins(InstructionType::Plus, 2),
        ins(InstructionType::Print, 3),
    ];
    assert_eq!(check(all).unwrap(), Vec::<Types>::new());
}

#[test]
fn print_on_empty_stack_fails() {
    let ops = vec![ins(InstructionType::PushInt, 0), ins(InstructionType::Print, 1), ins(InstructionType::Print, 2)];
    match check(ops) {
        Err(TypeError::Underflow { loc, want }) => {
            assert_eq!(want, Want::One(Types::Int));
            assert_eq!(loc.col, 2);
        },
        other => panic!("unexpected {:?}", other),
    }
}

#[test]
fn plus_takes_pointers() {
    let ops = vec![ins(InstructionType::MemUse, 0), ins(InstructionType::PushInt, 1), ins(InstructionType::Plus, 2)];
    assert_eq!(check(ops).unwrap(), vec![Types::Int]);
}

#[test]
fn mismatch_is_reported() {
    let ops = vec![ins(InstructionType::PushInt, 0), ins(InstructionType::Load8, 1)];
    match check(ops) {
        Err(TypeError::Mismatch { want, got, .. }) => {
            assert_eq!(want, Want::One(Types::Ptr));
            assert_eq!(got, Types::Int);
        },
        other => panic!("unexpected {:?}", other),
    }
}

#[test]
fn shufflers_move_types() {
    // int ptr bool -> rot -> ptr bool int
    let ops = vec![
        ins(InstructionType::PushInt, 0),
        ins(InstructionType::MemUse, 1),
        ins(InstructionType::PushInt, 2),
        ins(InstructionType::CastBool, 3),
        ins(InstructionType::Rot, 4),
    ];
    assert_eq!(check(ops).unwrap(), vec![Types::Ptr, Types::Bool, Types::Int]);
    let ops = vec![ins(InstructionType::PushInt, 0), ins(InstructionType::MemUse, 1), ins(InstructionType::Over, 2)];
    assert_eq!(check(ops).unwrap(), vec![Types::Int, Types::Ptr, Types::Int]);
    let ops = vec![ins(InstructionType::PushInt, 0), ins(InstructionType::MemUse, 1), ins(InstructionType::Swap, 2)];
    assert_eq!(check(ops).unwrap(), vec![Types::Ptr, Types::Int]);
    let ops = vec![ins(InstructionType::MemUse, 0), ins(InstructionType::Dup, 1)];
    assert_eq!(check(ops).unwrap(), vec![Types::Ptr, Types::Ptr]);
}

#[test]
fn string_pushes_length_and_pointer() {
    let ops = vec![ins(InstructionType::PushStr, 0), ins(InstructionType::DivMod, 1)];
    assert!(matches!(check(ops), Err(TypeError::Mismatch { got: Types::Ptr, .. })));
    let ops = vec![ins(InstructionType::PushStr, 0)];
    assert_eq!(check(ops).unwrap(), vec![Types::Int, Types::Ptr]);
}

#[test]
fn if_wants_bool() {
    let ops = vec![ins(InstructionType::PushInt, 0), op(OpType::Keyword(KeywordType::If), 1)];
    assert!(matches!(check(ops), Err(TypeError::Mismatch { want: Want::One(Types::Bool), .. })));
    let ops = vec![
        ins(InstructionType::PushInt, 0),
        ins(InstructionType::PushInt, 1),
        ins(InstructionType::Lt, 2),
        op(OpType::Keyword(KeywordType::If), 3),
    ];
    assert_eq!(check(ops).unwrap(), Vec::<Types>::new());
}

#[test]
fn syscall_pops_number_and_arguments() {
    let ops = vec![
        ins(InstructionType::MemUse, 0),
        ins(InstructionType::PushInt, 1),
        ins(InstructionType::PushInt, 2),
        ins(InstructionType::Syscall2, 3),
    ];
    assert_eq!(check(ops).unwrap(), vec![Types::Int]);
}

fn function(name: &str, sig: Vec<Operator>, body: Vec<Operator>) -> Vec<Operator> {
    let mut v = vec![named(OpType::Keyword(KeywordType::FunctionDef), name, 0), ins(InstructionType::With, 1)];
    v.extend(sig);
    v.push(op(OpType::Keyword(KeywordType::FunctionThen), 2));
    v.extend(body);
    v.push(op(OpType::Keyword(KeywordType::FunctionDone), 3));
    v
}

#[test]
fn function_is_checked_in_isolation() {
    // fn inc with int returns int then 1 + done
    let mut ops = function(
        "inc",
        vec![ins(InstructionType::TypeInt, 0), ins(InstructionType::Returns, 0), ins(InstructionType::TypeInt, 0)],
        vec![ins(InstructionType::PushInt, 0), ins(InstructionType::Plus, 0)],
    );
    ops.push(ins(InstructionType::PushInt, 5));
    ops.push(named(OpType::Instruction(InstructionType::FnCall), "inc", 6));
    let (stack, fns, _) = typecheck(ops, &args(false), None, Vec::new(), Vec::new()).unwrap();
    assert_eq!(stack, vec![Types::Int]);
    assert_eq!(fns.len(), 1);
    assert_eq!(fns[0].0, "inc");
    assert_eq!(fns[0].1.args, vec![Types::Int]);
}

#[test]
fn function_return_mismatch() {
    let ops = function(
        "bad",
        vec![ins(InstructionType::TypeVoid, 0), ins(InstructionType::Returns, 0), ins(InstructionType::TypeInt, 0)],
        vec![],
    );
    match check(ops) {
        Err(TypeError::ReturnMismatch { expected, got, .. }) => {
            assert_eq!(expected, vec![Types::Int]);
            assert_eq!(got, Vec::<Types>::new());
        },
        other => panic!("unexpected {:?}", other),
    }
}

#[test]
fn call_checks_arguments() {
    let mut ops = function(
        "f",
        vec![ins(InstructionType::TypePtr, 0), ins(InstructionType::Returns, 0), ins(InstructionType::TypeVoid, 0)],
        vec![ins(InstructionType::Drop, 0)],
    );
    ops.push(ins(InstructionType::PushInt, 5));
    ops.push(named(OpType::Instruction(InstructionType::FnCall), "f", 6));
    assert!(matches!(check(ops), Err(TypeError::Mismatch { want: Want::One(Types::Ptr), got: Types::Int, .. })));
}

#[test]
fn header_errors() {
    let ops = vec![named(OpType::Keyword(KeywordType::FunctionDef), "f", 0)];
    assert!(matches!(check(ops), Err(TypeError::MissingWith(_))));
    let ops = vec![named(OpType::Keyword(KeywordType::FunctionDef), "f", 0), ins(InstructionType::With, 1)];
    assert!(matches!(check(ops), Err(TypeError::SignatureUnterminated(_))));
    let ops = vec![
        named(OpType::Keyword(KeywordType::FunctionDef), "f", 0),
        ins(InstructionType::With, 1),
        op(OpType::Keyword(KeywordType::FunctionThen), 2),
    ];
    assert!(matches!(check(ops), Err(TypeError::BodyUnterminated(_))));
}

#[test]
fn unknown_references() {
    let ops = vec![named(OpType::Instruction(InstructionType::FnCall), "nope", 0)];
    assert!(matches!(check(ops), Err(TypeError::UnknownFunction(_))));
    let ops = vec![named(OpType::Instruction(InstructionType::ConstUse), "nope", 0)];
    assert!(matches!(check(ops), Err(TypeError::UnknownConstant(_))));
}

#[test]
fn constants_push_int() {
    let ops = vec![
        named(OpType::Keyword(KeywordType::ConstantDef), "k", 0),
        named(OpType::Instruction(InstructionType::ConstUse), "k", 1),
    ];
    assert_eq!(check(ops).unwrap(), vec![Types::Int]);
}

#[test]
fn unsafe_mode_accepts_everything() {
    let ops = vec![ins(InstructionType::Print, 0)];
    let (s, f, c) = typecheck(ops, &args(true), None, Vec::new(), Vec::new()).unwrap();
    assert!(s.is_empty() && f.is_empty() && c.is_empty());
}

#[test]
fn initial_types_seed_the_stack() {
    let ops = vec![ins(InstructionType::Print, 0)];
    let r = typecheck(ops, &args(false), Some(vec![Types::Int]), Vec::new(), Vec::new()).unwrap();
    assert!(r.0.is_empty());
}

#[test]
fn default_function_is_empty() {
    let f = Function::default();
    assert!(f.args.is_empty() && f.returns.is_empty());
    assert_eq!(f.loc.line, 0);
}
