use mclang::constants::{InstructionType, KeywordType, OpType, Operator, TokenType};
use mclang::crossref::{cross_ref, CrossRefError};

fn kw(k: KeywordType, i: usize) -> Operator {
    Operator::new(OpType::Keyword(k), TokenType::Word, 0, String::from("kw"), String::from("t.mcl"), 1, i)
}

fn push(v: usize, i: usize) -> Operator {
    Operator::new(
        OpType::Instruction(InstructionType::PushInt),
        TokenType::Int,
        v,
        String::new(),
        String::from("t.mcl"),
        1,
        i,
    )
}

fn ins(t: InstructionType, i: usize) -> Operator {
    Operator::new(OpType::Instruction(t), TokenType::Word, 0, String::from("w"), String::from("t.mcl"), 1, i)
}

#[test]
fn while_do_end_jumps() {
    // while 1 do 2 drop end : while at 0, do at 2, end at 5
    let prog = vec![
        kw(KeywordType::While, 0),
        push(1, 1),
        kw(KeywordType::Do, 2),
        push(2, 3),
        ins(InstructionType::Drop, 4),
        kw(KeywordType::End, 5),
    ];
    let out = cross_ref(prog).unwrap();
    assert_eq!(out.len(), 6);
    assert_eq!(out[2].jmp, 6);
    assert_eq!(out[5].jmp, 0);
    assert_eq!(out[0].jmp, 0);
}

#[test]
fn while_do_end_jumps_at_offset() {
    // 7 while 1 do end : while at 1, do at 3, end at 4
    let prog = vec![
        push(7, 0),
        kw(KeywordType::While, 1),
        push(1, 2),
        kw(KeywordType::Do, 3),
        kw(KeywordType::End, 4),
    ];
    let out = cross_ref(prog).unwrap();
    assert_eq!(out[3].jmp, 5);
    assert_eq!(out[4].jmp, 1);
}

#[test]
fn if_else_end_jumps() {
    // 1 if 2 else 3 end
    let prog = vec![
        push(1, 0),
        kw(KeywordType::If, 1),
        push(2, 2),
        kw(KeywordType::Else, 3),
        push(3, 4),
        kw(KeywordType::End, 5),
    ];
    let out = cross_ref(prog).unwrap();
    assert_eq!(out[1].jmp, 4);
    assert_eq!(out[3].jmp, 5);
    assert_eq!(out[5].jmp, 6);
}

#[test]
fn if_end_jumps() {
    let prog = vec![push(1, 0), kw(KeywordType::If, 1), push(2, 2), kw(KeywordType::End, 3)];
    let out = cross_ref(prog).unwrap();
    assert_eq!(out[1].jmp, 3);
    assert_eq!(out[3].jmp, 4);
}

#[test]
fn nested_blocks_balance() {
    // while 1 do 1 if 2 else 3 end end
    let prog = vec![
        kw(KeywordType::While, 0),
        push(1, 1),
        kw(KeywordType::Do, 2),
        push(1, 3),
        kw(KeywordType::If, 4),
        push(2, 5),
        kw(KeywordType::Else, 6),
        push(3, 7),
        kw(KeywordType::End, 8),
        kw(KeywordType::End, 9),
    ];
    let out = cross_ref(prog).unwrap();
    assert_eq!(out[4].jmp, 7);
    assert_eq!(out[6].jmp, 8);
    assert_eq!(out[8].jmp, 9);
    assert_eq!(out[2].jmp, 10);
    assert_eq!(out[9].jmp, 0);
}

#[test]
fn extra_opener_is_unclosed() {
    let prog = vec![kw(KeywordType::If, 0), kw(KeywordType::End, 1), kw(KeywordType::While, 2)];
    match cross_ref(prog) {
        Err(CrossRefError::UnclosedBlock(loc)) => assert_eq!(loc.col, 2),
        other => panic!("unexpected {:?}", other),
    }
}

#[test]
fn unclosed_reports_oldest_block() {
    let prog = vec![kw(KeywordType::If, 0), kw(KeywordType::If, 1)];
    match cross_ref(prog) {
        Err(CrossRefError::UnclosedBlock(loc)) => assert_eq!(loc.col, 0),
        other => panic!("unexpected {:?}", other),
    }
}

#[test]
fn extra_closer_is_rejected() {
    let prog = vec![kw(KeywordType::If, 0), kw(KeywordType::End, 1), kw(KeywordType::End, 2)];
    match cross_ref(prog) {
        Err(CrossRefError::EndWithoutBlock(loc)) => assert_eq!(loc.col, 2),
        other => panic!("unexpected {:?}", other),
    }
}

#[test]
fn end_after_while_without_do() {
    let prog = vec![kw(KeywordType::While, 0), kw(KeywordType::End, 1)];
    assert!(matches!(cross_ref(prog), Err(CrossRefError::EndClosesBadBlock(_))));
}

#[test]
fn else_without_if() {
    assert!(matches!(cross_ref(vec![kw(KeywordType::Else, 0)]), Err(CrossRefError::ElseWithoutIf(_))));
    let prog = vec![kw(KeywordType::While, 0), kw(KeywordType::Else, 1)];
    assert!(matches!(cross_ref(prog), Err(CrossRefError::ElseClosesNonIf(_))));
}

#[test]
fn do_without_while() {
    assert!(matches!(cross_ref(vec![kw(KeywordType::Do, 0)]), Err(CrossRefError::DoWithoutWhile(_))));
    let prog = vec![kw(KeywordType::If, 0), kw(KeywordType::Do, 1)];
    assert!(matches!(cross_ref(prog), Err(CrossRefError::DoClosesNonWhile(_))));
}

#[test]
fn empty_stream_cross_references() {
    assert_eq!(cross_ref(Vec::new()).unwrap().len(), 0);
}
