use vstd::prelude::*;
use crate::constants::{copy_loc, KeywordType, Loc, OpType, Operator};

verus! {

/// A constant as the interpreter sees it.
#[derive(Debug, Clone)]
pub struct Constant {
    pub loc: Loc,
    pub name: String,
    pub value_i: Option<usize>,
    pub value_s: Option<String>,
    pub used: bool,
}

/// A memory as the interpreter sees it: its size in bytes and its id.
#[derive(Debug, Clone)]
pub struct Memory {
    pub size: usize,
    pub loc: Loc,
    pub id: usize,
}

/// A function as the interpreter sees it: `id` is the index of its
/// definition marker in the stream.
#[derive(Debug, Clone)]
pub struct Function {
    pub loc: Loc,
    pub name: String,
    pub id: usize,
}

/// The definitions found in a resolved stream, in stream order.
#[derive(Debug, Clone)]
pub struct Defineds {
    pub memories: Vec<Memory>,
    pub functions: Vec<Function>,
    pub constants: Vec<Constant>,
}

/// Whether every memory operator of `ops` carries its id.
pub open spec fn memories_addressed(ops: Seq<Operator>) -> bool {
    forall|i: int|
        0 <= i < ops.len() && (#[trigger] ops[i]).typ == OpType::Keyword(KeywordType::Memory)
            ==> ops[i].addr is Some
}

/// The definitions among the first `n` operators of `ops`.
pub open spec fn defined_upto(ops: Seq<Operator>, n: int) -> (
    Seq<Memory>,
    Seq<Function>,
    Seq<Constant>,
)
    decreases n,
{
    if n <= 0 || n > ops.len() {
        (Seq::empty(), Seq::empty(), Seq::empty())
    } else {
        let (m, f, c) = defined_upto(ops, n - 1);
        let op = ops[n - 1];
        match op.typ {
            OpType::Keyword(KeywordType::Memory) => (
                m.push(Memory { size: op.value, loc: op.loc, id: op.addr->Some_0 }),
                f,
                c,
            ),
            OpType::Keyword(KeywordType::FunctionDef) => (
                m,
                f.push(Function { loc: op.loc, name: op.text, id: (n - 1) as usize }),
                c,
            ),
            OpType::Keyword(KeywordType::ConstantDef) => (
                m,
                f,
                c.push(
                    Constant {
                        loc: op.loc,
                        name: op.text,
                        value_i: Some(op.value),
                        value_s: None,
                        used: false,
                    },
                ),
            ),
            _ => (m, f, c),
        }
    }
}

/// Collects the memories, functions and constants a resolved stream
/// defines, before it is run.
pub fn pre_run(ops: &[Operator]) -> (r: Defineds)
    requires
        memories_addressed(ops@),
    ensures
        (r.memories@, r.functions@, r.constants@) == defined_upto(ops@, ops@.len() as int),
{
    let mut d = Defineds { memories: Vec::new(), functions: Vec::new(), constants: Vec::new() };
    let mut ip: usize = 0;
    assert(d.memories@ =~= Seq::<Memory>::empty());
    assert(d.functions@ =~= Seq::<Function>::empty());
    assert(d.constants@ =~= Seq::<Constant>::empty());
    while ip < ops.len()
        invariant
            ip <= ops@.len(),
            memories_addressed(ops@),
            (d.memories@, d.functions@, d.constants@) == defined_upto(ops@, ip as int),
        decreases ops.len() - ip,
    {
        let op = &ops[ip];
        match op.typ {
            OpType::Keyword(KeywordType::Memory) => {
                assert(ops@[ip as int].addr is Some);
                let id = match op.addr {
                    Some(a) => a,
                    None => 0,
                };
                d.memories.push(Memory { size: op.value, loc: copy_loc(&op.loc), id });
            },
            OpType::Keyword(KeywordType::FunctionDef) => {
                d.functions.push(Function { loc: copy_loc(&op.loc), name: op.text.clone(), id: ip });
            },
            OpType::Keyword(KeywordType::ConstantDef) => {
                d.constants.push(
                    Constant {
                        loc: copy_loc(&op.loc),
                        name: op.text.clone(),
                        value_i: Some(op.value),
                        value_s: None,
                        used: false,
                    },
                );
            },
            _ => {},
        }
        ip = ip + 1;
    }
    d
}

} // verus!
