use vstd::prelude::*;
use crate::constants::{copy_loc, InstructionType, Loc, OpType, Operator};

verus! {

/// Why a constant expression could not be evaluated.
#[derive(Debug, Clone)]
pub enum PrecompileError {
    /// An operand was missing.
    StackUnderflow(Loc),
    /// The result does not fit, a division by zero or an oversized shift.
    Overflow(Loc),
    /// An instruction outside arithmetic, comparison and stack shuffling.
    UnsupportedInstruction(Loc),
    /// A keyword; control flow is not evaluated.
    UnsupportedKeyword(Loc),
}

/// The value a binary instruction gives on operands `b` (deeper) and `a`
/// (top), or `None` where it has none in a machine word.
pub open spec fn binary_value(i: InstructionType, b: usize, a: usize) -> Option<usize> {
    match i {
        InstructionType::Plus => if b + a <= usize::MAX {
            Some((b + a) as usize)
        } else {
            None
        },
        InstructionType::Minus => if b >= a {
            Some((b - a) as usize)
        } else {
            None
        },
        InstructionType::Mul => if b * a <= usize::MAX {
            Some((b * a) as usize)
        } else {
            None
        },
        InstructionType::Equals => Some(if b == a { 1usize } else { 0usize }),
        InstructionType::NotEquals => Some(if b != a { 1usize } else { 0usize }),
        InstructionType::Gt => Some(if b > a { 1usize } else { 0usize }),
        InstructionType::Lt => Some(if b < a { 1usize } else { 0usize }),
        InstructionType::Ge => Some(if b >= a { 1usize } else { 0usize }),
        InstructionType::Le => Some(if b <= a { 1usize } else { 0usize }),
        InstructionType::Band => Some(a & b),
        InstructionType::Bor => Some(a | b),
        InstructionType::Shr => if a < usize::BITS {
            Some(b >> a)
        } else {
            None
        },
        InstructionType::Shl => if a < usize::BITS {
            Some(b << a)
        } else {
            None
        },
        _ => None,
    }
}

pub open spec fn is_binary(i: InstructionType) -> bool {
    match i {
        InstructionType::Plus | InstructionType::Minus | InstructionType::Mul
        | InstructionType::Equals | InstructionType::NotEquals | InstructionType::Gt
        | InstructionType::Lt | InstructionType::Ge | InstructionType::Le | InstructionType::Band
        | InstructionType::Bor | InstructionType::Shr | InstructionType::Shl => true,
        _ => false,
    }
}

/// One operator of constant evaluation on the value stack `st` (top last).
pub open spec fn precompile_step(st: Seq<usize>, op: Operator) -> Result<
    Seq<usize>,
    PrecompileError,
> {
    let n = st.len();
    match op.typ {
        OpType::Instruction(i) => {
            if i == InstructionType::PushInt {
                Ok(st.push(op.value))
            } else if i == InstructionType::Drop {
                Ok(if n > 0 { st.drop_last() } else { st })
            } else if i == InstructionType::Dup {
                if n < 1 {
                    Err(PrecompileError::StackUnderflow(op.loc))
                } else {
                    Ok(st.push(st[n - 1]))
                }
            } else if i == InstructionType::Swap || i == InstructionType::Over {
                if n < 2 {
                    Err(PrecompileError::StackUnderflow(op.loc))
                } else {
                    let rest = st.subrange(0, n - 2);
                    if i == InstructionType::Swap {
                        Ok(rest.push(st[n - 1]).push(st[n - 2]))
                    } else {
                        Ok(rest.push(st[n - 2]).push(st[n - 1]).push(st[n - 2]))
                    }
                }
            } else if i == InstructionType::Rot {
                if n < 3 {
                    Err(PrecompileError::StackUnderflow(op.loc))
                } else {
                    Ok(st.subrange(0, n - 3).push(st[n - 2]).push(st[n - 1]).push(st[n - 3]))
                }
            } else if i == InstructionType::DivMod {
                if n < 2 {
                    Err(PrecompileError::StackUnderflow(op.loc))
                } else if st[n - 1] == 0 {
                    Err(PrecompileError::Overflow(op.loc))
                } else {
                    Ok(
                        st.subrange(0, n - 2).push((st[n - 2] / st[n - 1]) as usize).push(
                            (st[n - 2] % st[n - 1]) as usize,
                        ),
                    )
                }
            } else if is_binary(i) {
                if n < 2 {
                    Err(PrecompileError::StackUnderflow(op.loc))
                } else {
                    match binary_value(i, st[n - 2], st[n - 1]) {
                        Some(v) => Ok(st.subrange(0, n - 2).push(v)),
                        None => Err(PrecompileError::Overflow(op.loc)),
                    }
                }
            } else {
                Err(PrecompileError::UnsupportedInstruction(op.loc))
            }
        },
        OpType::Keyword(_) => Err(PrecompileError::UnsupportedKeyword(op.loc)),
    }
}

/// Evaluation of `ops` from index `i` on, starting from stack `st`.
pub open spec fn precompile_from(ops: Seq<Operator>, i: int, st: Seq<usize>) -> Result<
    Seq<usize>,
    PrecompileError,
>
    decreases ops.len() - i,
{
    if i < 0 || i >= ops.len() {
        Ok(st)
    } else {
        match precompile_step(st, ops[i]) {
            Ok(st2) => precompile_from(ops, i + 1, st2),
            Err(e) => Err(e),
        }
    }
}

/// The value stack that evaluating `ops` from an empty stack leaves.
pub open spec fn precompile_spec(ops: Seq<Operator>) -> Result<Seq<usize>, PrecompileError> {
    precompile_from(ops, 0, Seq::empty())
}

fn binary_exec(i: InstructionType, b: usize, a: usize) -> (r: Option<usize>)
    requires
        is_binary(i),
    ensures
        r == binary_value(i, b, a),
{
    match i {
        InstructionType::Plus => b.checked_add(a),
        InstructionType::Minus => b.checked_sub(a),
        InstructionType::Mul => b.checked_mul(a),
        InstructionType::Equals => Some(if b == a { 1 } else { 0 }),
        InstructionType::NotEquals => Some(if b != a { 1 } else { 0 }),
        InstructionType::Gt => Some(if b > a { 1 } else { 0 }),
        InstructionType::Lt => Some(if b < a { 1 } else { 0 }),
        InstructionType::Ge => Some(if b >= a { 1 } else { 0 }),
        InstructionType::Le => Some(if b <= a { 1 } else { 0 }),
        InstructionType::Band => Some(a & b),
        InstructionType::Bor => Some(a | b),
        InstructionType::Shr => if a < usize::BITS as usize {
            Some(b >> a)
        } else {
            None
        },
        _ => if a < usize::BITS as usize {
            Some(b << a)
        } else {
            None
        },
    }
}

/// Evaluates a constant expression: arithmetic, comparisons and stack
/// shuffles over machine words. The result is the whole value stack.
pub fn precompile(tokens: &Vec<Operator>) -> (r: Result<Vec<usize>, PrecompileError>)
    ensures
        r is Ok <==> precompile_spec(tokens@) is Ok,
        r matches Ok(v) ==> precompile_spec(tokens@) == Ok::<Seq<usize>, PrecompileError>(v@),
        r matches Err(e) ==> precompile_spec(tokens@) == Err::<Seq<usize>, PrecompileError>(e),
{
    let mut stack: Vec<usize> = Vec::new();
    let n = tokens.len();
    let mut k: usize = 0;
    while k < n
        invariant
            n == tokens@.len(),
            k <= n,
            precompile_spec(tokens@) == precompile_from(tokens@, k as int, stack@),
        decreases n - k,
    {
        let op = &tokens[k];
        let ghost st = stack@;
        let len = stack.len();
        match op.typ {
            OpType::Instruction(i) => {
                if i == InstructionType::PushInt {
                    stack.push(op.value);
                } else if i == InstructionType::Drop {
                    if len > 0 {
                        stack.pop();
                    }
                } else if i == InstructionType::Dup {
                    if len < 1 {
                        return Err(PrecompileError::StackUnderflow(copy_loc(&op.loc)));
                    }
                    let a = stack[len - 1];
                    stack.push(a);
                } else if i == InstructionType::Swap || i == InstructionType::Over {
                    if len < 2 {
                        return Err(PrecompileError::StackUnderflow(copy_loc(&op.loc)));
                    }
                    let a = stack.pop().unwrap();
                    let b = stack.pop().unwrap();
                    if i == InstructionType::Swap {
                        stack.push(a);
                        stack.push(b);
                    } else {
                        stack.push(b);
                        stack.push(a);
                        stack.push(b);
                    }
                } else if i == InstructionType::Rot {
                    if len < 3 {
                        return Err(PrecompileError::StackUnderflow(copy_loc(&op.loc)));
                    }
                    let a = stack.pop().unwrap();
                    let b = stack.pop().unwrap();
                    let c = stack.pop().unwrap();
                    stack.push(b);
                    stack.push(a);
                    stack.push(c);
                } else if i == InstructionType::DivMod {
                    if len < 2 {
                        return Err(PrecompileError::StackUnderflow(copy_loc(&op.loc)));
                    }
                    if stack[len - 1] == 0 {
                        return Err(PrecompileError::Overflow(copy_loc(&op.loc)));
                    }
                    let a = stack.pop().unwrap();
                    let b = stack.pop().unwrap();
                    stack.push(b / a);
                    stack.push(b % a);
                } else if i == InstructionType::Plus || i == InstructionType::Minus || i
                    == InstructionType::Mul || i == InstructionType::Equals || i
                    == InstructionType::NotEquals || i == InstructionType::Gt || i
                    == InstructionType::Lt || i == InstructionType::Ge || i == InstructionType::Le
                    || i == InstructionType::Band || i == InstructionType::Bor || i
                    == InstructionType::Shr || i == InstructionType::Shl {
                    if len < 2 {
                        return Err(PrecompileError::StackUnderflow(copy_loc(&op.loc)));
                    }
                    let a = stack.pop().unwrap();
                    let b = stack.pop().unwrap();
                    match binary_exec(i, b, a) {
                        Some(v) => {
                            stack.push(v);
                        },
                        None => {
                            return Err(PrecompileError::Overflow(copy_loc(&op.loc)));
                        },
                    }
                } else {
                    return Err(PrecompileError::UnsupportedInstruction(copy_loc(&op.loc)));
                }
            },
            OpType::Keyword(_) => {
                return Err(PrecompileError::UnsupportedKeyword(copy_loc(&op.loc)));
            },
        }
        assert(precompile_step(st, tokens@[k as int]) == Ok::<Seq<usize>, PrecompileError>(
            stack@,
        )) by {
            let m = st.len() as int;
            if m >= 2 {
                assert(st.subrange(0, m - 2) =~= st.drop_last().drop_last());
            }
            if m >= 3 {
                assert(st.subrange(0, m - 3) =~= st.drop_last().drop_last().drop_last());
            }
        }
        k = k + 1;
    }
    Ok(stack)
}

} // verus!
