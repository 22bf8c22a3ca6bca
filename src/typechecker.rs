use vstd::prelude::*;
use crate::args::Args;
use crate::constants::{copy_loc, InstructionType, KeywordType, Loc, OpType, Operator, Types};

verus! {

/// A declared function signature.
#[derive(Debug, Clone)]
pub struct Function {
    pub loc: Loc,
    pub args: Vec<Types>,
    pub returns: Vec<Types>,
}

/// A constant and the types it pushes.
#[derive(Debug, Clone)]
pub struct Constant {
    pub loc: Loc,
    pub types: Vec<Types>,
}

/// Functions by name; a later entry shadows an earlier one of that name.
pub type Functions = Vec<(String, Function)>;

/// Constants by name; a later entry shadows an earlier one of that name.
pub type Constants = Vec<(String, Constant)>;

/// What an operand of an instruction may be.
#[derive(Debug, Clone, Copy, PartialEq, Eq, Structural)]
pub enum Want {
    /// This type; `Any` takes every type.
    One(Types),
    /// An `Int` or a `Ptr`.
    Number,
}

pub open spec fn accepts(w: Want, t: Types) -> bool {
    match w {
        Want::One(Types::Any) => true,
        Want::One(x) => t == x,
        Want::Number => t == Types::Int || t == Types::Ptr,
    }
}

/// Why a stream was rejected.
#[derive(Debug, Clone)]
pub enum TypeError {
    /// An operand was wanted and the stack was empty.
    Underflow { loc: Loc, want: Want },
    /// An operand of the wrong type.
    Mismatch { loc: Loc, want: Want, got: Types },
    /// A function definition not followed by `with`.
    MissingWith(Loc),
    /// A signature with no `then`.
    SignatureUnterminated(Loc),
    /// A function body with no `done`.
    BodyUnterminated(Loc),
    /// A body whose final stack differs from the declared results.
    ReturnMismatch { loc: Loc, expected: Vec<Types>, got: Vec<Types> },
    /// A call of a function never defined.
    UnknownFunction(Loc),
    /// A use of a constant never defined.
    UnknownConstant(Loc),
}

/// A type error with its type lists as sequences.
pub enum TypeErrorView {
    Underflow { loc: Loc, want: Want },
    Mismatch { loc: Loc, want: Want, got: Types },
    MissingWith(Loc),
    SignatureUnterminated(Loc),
    BodyUnterminated(Loc),
    ReturnMismatch { loc: Loc, expected: Seq<Types>, got: Seq<Types> },
    UnknownFunction(Loc),
    UnknownConstant(Loc),
}

impl View for TypeError {
    type V = TypeErrorView;

    open spec fn view(&self) -> TypeErrorView {
        match self {
            TypeError::Underflow { loc, want } => TypeErrorView::Underflow { loc: *loc, want: *want },
            TypeError::Mismatch { loc, want, got } => TypeErrorView::Mismatch {
                loc: *loc,
                want: *want,
                got: *got,
            },
            TypeError::MissingWith(l) => TypeErrorView::MissingWith(*l),
            TypeError::SignatureUnterminated(l) => TypeErrorView::SignatureUnterminated(*l),
            TypeError::BodyUnterminated(l) => TypeErrorView::BodyUnterminated(*l),
            TypeError::ReturnMismatch { loc, expected, got } => TypeErrorView::ReturnMismatch {
                loc: *loc,
                expected: expected@,
                got: got@,
            },
            TypeError::UnknownFunction(l) => TypeErrorView::UnknownFunction(*l),
            TypeError::UnknownConstant(l) => TypeErrorView::UnknownConstant(*l),
        }
    }
}

/// A signature: where it was declared, parameter and result types.
pub struct Sig {
    pub loc: Loc,
    pub args: Seq<Types>,
    pub returns: Seq<Types>,
}

/// The checker's state: the abstract stack (top last) and the known
/// functions and constants, later entries shadowing earlier ones.
pub struct TcState {
    pub stack: Seq<Types>,
    pub fns: Seq<(Seq<char>, Sig)>,
    pub consts: Seq<(Seq<char>, Seq<Types>)>,
}

pub open spec fn sig_of(f: Function) -> Sig {
    Sig { loc: f.loc, args: f.args@, returns: f.returns@ }
}

pub open spec fn fns_view(fs: Seq<(String, Function)>) -> Seq<(Seq<char>, Sig)> {
    fs.map_values(|e: (String, Function)| (e.0@, sig_of(e.1)))
}

pub open spec fn consts_view(cs: Seq<(String, Constant)>) -> Seq<(Seq<char>, Seq<Types>)> {
    cs.map_values(|e: (String, Constant)| (e.0@, e.1.types@))
}

/// The last index at which `name` is bound in `names`.
pub open spec fn last_index<V>(t: Seq<(Seq<char>, V)>, name: Seq<char>) -> Option<int>
    decreases t.len(),
{
    if t.len() == 0 {
        None
    } else if t.last().0 == name {
        Some(t.len() - 1)
    } else {
        last_index(t.drop_last(), name)
    }
}

/// What each instruction pops, top first.
pub open spec fn wants_of(i: InstructionType) -> Seq<Want> {
    let any = Want::One(Types::Any);
    let wi = Want::One(Types::Int);
    match i {
        InstructionType::Drop | InstructionType::Dup | InstructionType::CastBool
        | InstructionType::CastPtr | InstructionType::CastInt | InstructionType::CastVoid => seq![any],
        InstructionType::Print => seq![wi],
        InstructionType::Rot => seq![any, any, any],
        InstructionType::Over | InstructionType::Swap => seq![any, any],
        InstructionType::Minus | InstructionType::Plus => seq![Want::Number, Want::Number],
        InstructionType::Band | InstructionType::Bor | InstructionType::Shr | InstructionType::Shl
        | InstructionType::Mul | InstructionType::Equals | InstructionType::Gt | InstructionType::Lt
        | InstructionType::Ge | InstructionType::Le | InstructionType::NotEquals
        | InstructionType::DivMod => seq![wi, wi],
        InstructionType::Load8 | InstructionType::Load32 | InstructionType::Load64 => seq![
            Want::One(Types::Ptr),
        ],
        InstructionType::Store8 | InstructionType::Store32 | InstructionType::Store64 => seq![
            wi,
            Want::One(Types::Ptr),
        ],
        InstructionType::Syscall0 => seq![wi],
        InstructionType::Syscall1 => seq![wi, any],
        InstructionType::Syscall2 => seq![wi, any, any],
        InstructionType::Syscall3 => seq![wi, any, any, any],
        InstructionType::Syscall4 => seq![wi, any, any, any, any],
        InstructionType::Syscall5 => seq![wi, any, any, any, any, any],
        InstructionType::Syscall6 => seq![wi, any, any, any, any, any, any],
        _ => Seq::empty(),
    }
}

/// What each instruction pushes, given what it popped (top first).
pub open spec fn pushes_of(i: InstructionType, p: Seq<Types>) -> Seq<Types> {
    match i {
        InstructionType::PushInt => seq![Types::Int],
        InstructionType::PushStr => seq![Types::Int, Types::Ptr],
        InstructionType::MemUse => seq![Types::Ptr],
        InstructionType::Dup => seq![p[0], p[0]],
        InstructionType::Rot => seq![p[1], p[0], p[2]],
        InstructionType::Over => seq![p[1], p[0], p[1]],
        InstructionType::Swap => seq![p[0], p[1]],
        InstructionType::Minus | InstructionType::Plus | InstructionType::Band | InstructionType::Bor
        | InstructionType::Shr | InstructionType::Shl | InstructionType::Mul
        | InstructionType::Load8 | InstructionType::Load32 | InstructionType::Load64
        | InstructionType::Syscall0 | InstructionType::Syscall1 | InstructionType::Syscall2
        | InstructionType::Syscall3 | InstructionType::Syscall4 | InstructionType::Syscall5
        | InstructionType::Syscall6 | InstructionType::CastInt => seq![Types::Int],
        InstructionType::Equals | InstructionType::Gt | InstructionType::Lt | InstructionType::Ge
        | InstructionType::Le | InstructionType::NotEquals | InstructionType::CastBool => seq![
            Types::Bool,
        ],
        InstructionType::DivMod => seq![Types::Int, Types::Int],
        InstructionType::CastPtr => seq![Types::Ptr],
        InstructionType::CastVoid => seq![Types::Any],
        _ => Seq::empty(),
    }
}

/// Pops one operand per entry of `wants` from index `k` on, top first,
/// appending each to `popped`.
pub open spec fn pop_all(
    stack: Seq<Types>,
    wants: Seq<Want>,
    k: int,
    popped: Seq<Types>,
    loc: Loc,
) -> Result<(Seq<Types>, Seq<Types>), TypeErrorView>
    decreases wants.len() - k,
{
    if k < 0 || k >= wants.len() {
        Ok((stack, popped))
    } else if stack.len() == 0 {
        Err(TypeErrorView::Underflow { loc, want: wants[k] })
    } else if !accepts(wants[k], stack.last()) {
        Err(TypeErrorView::Mismatch { loc, want: wants[k], got: stack.last() })
    } else {
        pop_all(stack.drop_last(), wants, k + 1, popped.push(stack.last()), loc)
    }
}

/// What a call pops: its parameters, the last one on top.
pub open spec fn arg_wants(args: Seq<Types>) -> Seq<Want> {
    Seq::new(args.len(), |x: int| Want::One(args[args.len() - 1 - x]))
}

/// The effect of one operator other than a function definition.
pub open spec fn tc_op(st: TcState, op: Operator) -> Result<TcState, TypeErrorView> {
    match op.typ {
        OpType::Keyword(KeywordType::If) | OpType::Keyword(KeywordType::Do) => match pop_all(
            st.stack,
            seq![Want::One(Types::Bool)],
            0,
            Seq::empty(),
            op.loc,
        ) {
            Ok((s, _)) => Ok(TcState { stack: s, ..st }),
            Err(e) => Err(e),
        },
        OpType::Keyword(KeywordType::ConstantDef) => Ok(
            TcState { consts: st.consts.push((op.text@, seq![Types::Int])), ..st },
        ),
        OpType::Keyword(_) => Ok(st),
        OpType::Instruction(InstructionType::FnCall) => match last_index(st.fns, op.text@) {
            None => Err(TypeErrorView::UnknownFunction(op.loc)),
            Some(j) => {
                let sig = st.fns[j].1;
                match pop_all(st.stack, arg_wants(sig.args), 0, Seq::empty(), op.loc) {
                    Ok((s, _)) => Ok(TcState { stack: s + sig.returns, ..st }),
                    Err(e) => Err(e),
                }
            },
        },
        OpType::Instruction(InstructionType::ConstUse) => match last_index(st.consts, op.text@) {
            None => Err(TypeErrorView::UnknownConstant(op.loc)),
            Some(j) => Ok(TcState { stack: st.stack + st.consts[j].1, ..st }),
        },
        OpType::Instruction(i) => match pop_all(st.stack, wants_of(i), 0, Seq::empty(), op.loc) {
            Ok((s, p)) => Ok(TcState { stack: s + pushes_of(i, p), ..st }),
            Err(e) => Err(e),
        },
    }
}

/// The type an annotation word stands for; `void` stands for none.
pub open spec fn annotation_type(t: OpType) -> Option<Types> {
    match t {
        OpType::Instruction(InstructionType::TypeBool) => Some(Types::Bool),
        OpType::Instruction(InstructionType::TypeInt) => Some(Types::Int),
        OpType::Instruction(InstructionType::TypePtr) => Some(Types::Ptr),
        OpType::Instruction(InstructionType::TypeStr) => Some(Types::Str),
        OpType::Instruction(InstructionType::TypeAny) => Some(Types::Any),
        _ => None,
    }
}

/// Reads a signature from index `k` up to its `then`: types before
/// `returns` are parameters, after it results. Gives both lists and the
/// index of `then`.
pub open spec fn sig_parse(
    ops: Seq<Operator>,
    k: int,
    hi: int,
    args: Seq<Types>,
    rets: Seq<Types>,
    in_returns: bool,
    loc: Loc,
) -> Result<(Seq<Types>, Seq<Types>, int), TypeErrorView>
    decreases hi - k,
{
    if k < 0 || k >= hi {
        Err(TypeErrorView::SignatureUnterminated(loc))
    } else {
        let t = ops[k].typ;
        if t == OpType::Keyword(KeywordType::FunctionThen) {
            Ok((args, rets, k))
        } else if t == OpType::Instruction(InstructionType::Returns) {
            sig_parse(ops, k + 1, hi, args, rets, true, loc)
        } else if let Some(ty) = annotation_type(t) {
            if in_returns {
                sig_parse(ops, k + 1, hi, args, rets.push(ty), in_returns, loc)
            } else {
                sig_parse(ops, k + 1, hi, args.push(ty), rets, in_returns, loc)
            }
        } else {
            sig_parse(ops, k + 1, hi, args, rets, in_returns, loc)
        }
    }
}

/// The index of the first `done` from `k` on, before `hi`.
pub open spec fn find_done(ops: Seq<Operator>, k: int, hi: int) -> Option<int>
    decreases hi - k,
{
    if k < 0 || k >= hi {
        None
    } else if ops[k].typ == OpType::Keyword(KeywordType::FunctionDone) {
        Some(k)
    } else {
        find_done(ops, k + 1, hi)
    }
}

/// The signature of the function defined at `i` and where its body lies:
/// `with`, the signature up to `then`, the body up to `done`.
pub open spec fn fn_header(ops: Seq<Operator>, i: int, hi: int) -> Result<
    (Sig, int, int),
    TypeErrorView,
> {
    let op = ops[i];
    if i + 1 >= hi || ops[i + 1].typ != OpType::Instruction(InstructionType::With) {
        Err(TypeErrorView::MissingWith(op.loc))
    } else {
        match sig_parse(ops, i + 2, hi, Seq::empty(), Seq::empty(), false, op.loc) {
            Err(e) => Err(e),
            Ok((a, r, t)) => match find_done(ops, t + 1, hi) {
                None => Err(TypeErrorView::BodyUnterminated(op.loc)),
                Some(d) => Ok((Sig { loc: op.loc, args: a, returns: r }, t + 1, d)),
            },
        }
    }
}

/// Checking of `ops` from `i` up to `hi` from state `st`. A function
/// definition is checked in isolation: its body from a stack of exactly
/// its parameters, which must end as exactly its results; the caller's
/// stack is left as it was, and the function is known from then on
/// (in its own body too).
pub open spec fn tc_range(ops: Seq<Operator>, i: int, hi: int, st: TcState) -> Result<
    TcState,
    TypeErrorView,
>
    decreases hi - i,
{
    if i < 0 || i >= hi || hi > ops.len() {
        Ok(st)
    } else {
        let op = ops[i];
        if op.typ == OpType::Keyword(KeywordType::FunctionDef) {
            match fn_header(ops, i, hi) {
                Err(e) => Err(e),
                Ok((sig, lo, d)) => if i < lo <= d < hi {
                    let fns2 = st.fns.push((op.text@, sig));
                    match tc_range(
                        ops,
                        lo,
                        d,
                        TcState { stack: sig.args, fns: fns2, consts: st.consts },
                    ) {
                        Err(e) => Err(e),
                        Ok(end) => if end.stack != sig.returns {
                            Err(
                                TypeErrorView::ReturnMismatch {
                                    loc: sig.loc,
                                    expected: sig.returns,
                                    got: end.stack,
                                },
                            )
                        } else {
                            tc_range(ops, d + 1, hi, TcState { fns: fns2, ..st })
                        },
                    }
                } else {
                    Err(TypeErrorView::BodyUnterminated(op.loc))
                },
            }
        } else {
            match tc_op(st, op) {
                Err(e) => Err(e),
                Ok(st2) => tc_range(ops, i + 1, hi, st2),
            }
        }
    }
}

pub open spec fn state_of(stack: Seq<Types>, fns: Seq<(String, Function)>, consts: Seq<(String, Constant)>) -> TcState {
    TcState { stack, fns: fns_view(fns), consts: consts_view(consts) }
}

pub fn copy_types(v: &Vec<Types>) -> (r: Vec<Types>)
    ensures
        r@ == v@,
{
    let mut out: Vec<Types> = Vec::new();
    let mut i: usize = 0;
    while i < v.len()
        invariant
            i <= v@.len(),
            out@ == v@.subrange(0, i as int),
        decreases v.len() - i,
    {
        out.push(v[i]);
        assert(v@.subrange(0, i + 1) =~= v@.subrange(0, i as int).push(v@[i as int]));
        i = i + 1;
    }
    assert(v@.subrange(0, v@.len() as int) =~= v@);
    out
}

pub fn types_eq(a: &Vec<Types>, b: &Vec<Types>) -> (r: bool)
    ensures
        r == (a@ == b@),
{
    if a.len() != b.len() {
        return false;
    }
    let mut i: usize = 0;
    while i < a.len()
        invariant
            a@.len() == b@.len(),
            i <= a@.len(),
            forall|k: int| 0 <= k < i ==> a@[k] == b@[k],
        decreases a.len() - i,
    {
        if a[i] != b[i] {
            return false;
        }
        i = i + 1;
    }
    assert(a@ =~= b@);
    true
}

impl Function {
    /// A signature with no parameters and no results.
    pub fn default() -> (r: Self)
        ensures
            r.args@.len() == 0,
            r.returns@.len() == 0,
            r.loc.file@.len() == 0,
            r.loc.line == 0,
            r.loc.col == 0,
    {
        Function {
            args: Vec::new(),
            returns: Vec::new(),
            loc: Loc { file: String::new(), line: 0, col: 0 },
        }
    }

    pub fn duplicate(&self) -> (r: Self)
        ensures
            sig_of(r) == sig_of(*self),
    {
        Function {
            loc: copy_loc(&self.loc),
            args: copy_types(&self.args),
            returns: copy_types(&self.returns),
        }
    }
}

fn dup_fns(f: &Functions) -> (r: Functions)
    ensures
        fns_view(r@) == fns_view(f@),
{
    let mut out: Functions = Vec::new();
    let mut i: usize = 0;
    while i < f.len()
        invariant
            i <= f@.len(),
            fns_view(out@) == fns_view(f@.subrange(0, i as int)),
        decreases f.len() - i,
    {
        let e = &f[i];
        out.push((e.0.clone(), e.1.duplicate()));
        assert(fns_view(f@.subrange(0, i + 1)) =~= fns_view(f@.subrange(0, i as int)).push(
            (f@[i as int].0@, sig_of(f@[i as int].1)),
        ));
        assert(fns_view(out@) =~= fns_view(f@.subrange(0, i + 1)));
        i = i + 1;
    }
    assert(f@.subrange(0, f@.len() as int) =~= f@);
    out
}

fn dup_consts(c: &Constants) -> (r: Constants)
    ensures
        consts_view(r@) == consts_view(c@),
{
    let mut out: Constants = Vec::new();
    let mut i: usize = 0;
    while i < c.len()
        invariant
            i <= c@.len(),
            consts_view(out@) == consts_view(c@.subrange(0, i as int)),
        decreases c.len() - i,
    {
        let e = &c[i];
        out.push((e.0.clone(), Constant { loc: copy_loc(&e.1.loc), types: copy_types(&e.1.types) }));
        assert(consts_view(c@.subrange(0, i + 1)) =~= consts_view(c@.subrange(0, i as int)).push(
            (c@[i as int].0@, c@[i as int].1.types@),
        ));
        assert(consts_view(out@) =~= consts_view(c@.subrange(0, i + 1)));
        i = i + 1;
    }
    assert(c@.subrange(0, c@.len() as int) =~= c@);
    out
}

fn find_last_fn(f: &Functions, name: &String) -> (r: Option<usize>)
    ensures
        r matches Some(j) ==> last_index(fns_view(f@), name@) == Some(j as int) && j < f@.len(),
        r is None ==> last_index(fns_view(f@), name@) is None,
{
    let ghost v = fns_view(f@);
    let mut k = f.len();
    assert(v.subrange(0, k as int) =~= v);
    while k > 0
        invariant
            k <= f@.len(),
            v == fns_view(f@),
            last_index(v, name@) == last_index(v.subrange(0, k as int), name@),
        decreases k,
    {
        let ghost sub = v.subrange(0, k as int);
        assert(sub.drop_last() =~= v.subrange(0, k - 1));
        if f[k - 1].0 == *name {
            return Some(k - 1);
        }
        k = k - 1;
    }
    None
}

fn find_last_const(c: &Constants, name: &String) -> (r: Option<usize>)
    ensures
        r matches Some(j) ==> last_index(consts_view(c@), name@) == Some(j as int) && j < c@.len(),
        r is None ==> last_index(consts_view(c@), name@) is None,
{
    let ghost v = consts_view(c@);
    let mut k = c.len();
    assert(v.subrange(0, k as int) =~= v);
    while k > 0
        invariant
            k <= c@.len(),
            v == consts_view(c@),
            last_index(v, name@) == last_index(v.subrange(0, k as int), name@),
        decreases k,
    {
        let ghost sub = v.subrange(0, k as int);
        assert(sub.drop_last() =~= v.subrange(0, k - 1));
        if c[k - 1].0 == *name {
            return Some(k - 1);
        }
        k = k - 1;
    }
    None
}

/// Pops one operand per entry of `wants`, top first, checking each.
fn pop_wanted(stack: &mut Vec<Types>, wants: &Vec<Want>, loc: &Loc) -> (r: Result<
    Vec<Types>,
    TypeError,
>)
    ensures
        r is Ok <==> pop_all(old(stack)@, wants@, 0, Seq::empty(), *loc) is Ok,
        r matches Ok(p) ==> pop_all(old(stack)@, wants@, 0, Seq::empty(), *loc) == Ok::<
            (Seq<Types>, Seq<Types>),
            TypeErrorView,
        >((final(stack)@, p@)),
        r matches Err(e) ==> pop_all(old(stack)@, wants@, 0, Seq::empty(), *loc) == Err::<
            (Seq<Types>, Seq<Types>),
            TypeErrorView,
        >(e@),
{
    let mut popped: Vec<Types> = Vec::new();
    let mut k: usize = 0;
    while k < wants.len()
        invariant
            k <= wants@.len(),
            pop_all(old(stack)@, wants@, 0, Seq::empty(), *loc) == pop_all(
                stack@,
                wants@,
                k as int,
                popped@,
                *loc,
            ),
        decreases wants.len() - k,
    {
        let w = wants[k];
        if stack.len() == 0 {
            return Err(TypeError::Underflow { loc: copy_loc(loc), want: w });
        }
        let t = stack.pop().unwrap();
        let ok = match w {
            Want::One(Types::Any) => true,
            Want::One(x) => t == x,
            Want::Number => t == Types::Int || t == Types::Ptr,
        };
        if !ok {
            return Err(TypeError::Mismatch { loc: copy_loc(loc), want: w, got: t });
        }
        popped.push(t);
        k = k + 1;
    }
    Ok(popped)
}

fn wants_exec(i: InstructionType) -> (r: Vec<Want>)
    ensures
        r@ == wants_of(i),
{
    let any = Want::One(Types::Any);
    let wi = Want::One(Types::Int);
    let r = match i {
        InstructionType::Drop | InstructionType::Dup | InstructionType::CastBool
        | InstructionType::CastPtr | InstructionType::CastInt | InstructionType::CastVoid => vec![any],
        InstructionType::Print => vec![wi],
        InstructionType::Rot => vec![any, any, any],
        InstructionType::Over | InstructionType::Swap => vec![any, any],
        InstructionType::Minus | InstructionType::Plus => vec![Want::Number, Want::Number],
        InstructionType::Band | InstructionType::Bor | InstructionType::Shr | InstructionType::Shl
        | InstructionType::Mul | InstructionType::Equals | InstructionType::Gt | InstructionType::Lt
        | InstructionType::Ge | InstructionType::Le | InstructionType::NotEquals
        | InstructionType::DivMod => vec![wi, wi],
        InstructionType::Load8 | InstructionType::Load32 | InstructionType::Load64 => vec![
            Want::One(Types::Ptr),
        ],
        InstructionType::Store8 | InstructionType::Store32 | InstructionType::Store64 => vec![
            wi,
            Want::One(Types::Ptr),
        ],
        InstructionType::Syscall0 => vec![wi],
        InstructionType::Syscall1 => vec![wi, any],
        InstructionType::Syscall2 => vec![wi, any, any],
        InstructionType::Syscall3 => vec![wi, any, any, any],
        InstructionType::Syscall4 => vec![wi, any, any, any, any],
        InstructionType::Syscall5 => vec![wi, any, any, any, any, any],
        InstructionType::Syscall6 => vec![wi, any, any, any, any, any, any],
        _ => Vec::new(),
    };
    assert(r@ =~= wants_of(i));
    r
}

fn push_results(stack: &mut Vec<Types>, i: InstructionType, p: &Vec<Types>)
    requires
        p@.len() == wants_of(i).len(),
    ensures
        final(stack)@ == old(stack)@ + pushes_of(i, p@),
{
    let ghost s0 = stack@;
    match i {
        InstructionType::PushInt => stack.push(Types::Int),
        InstructionType::PushStr => {
            stack.push(Types::Int);
            stack.push(Types::Ptr);
        },
        InstructionType::MemUse | InstructionType::CastPtr => stack.push(Types::Ptr),
        InstructionType::Dup => {
            stack.push(p[0]);
            stack.push(p[0]);
        },
        InstructionType::Rot => {
            stack.push(p[1]);
            stack.push(p[0]);
            stack.push(p[2]);
        },
        InstructionType::Over => {
            stack.push(p[1]);
            stack.push(p[0]);
            stack.push(p[1]);
        },
        InstructionType::Swap => {
            stack.push(p[0]);
            stack.push(p[1]);
        },
        InstructionType::Minus | InstructionType::Plus | InstructionType::Band | InstructionType::Bor
        | InstructionType::Shr | InstructionType::Shl | InstructionType::Mul
        | InstructionType::Load8 | InstructionType::Load32 | InstructionType::Load64
        | InstructionType::Syscall0 | InstructionType::Syscall1 | InstructionType::Syscall2
        | InstructionType::Syscall3 | InstructionType::Syscall4 | InstructionType::Syscall5
        | InstructionType::Syscall6 | InstructionType::CastInt => stack.push(Types::Int),
        InstructionType::Equals | InstructionType::Gt | InstructionType::Lt | InstructionType::Ge
        | InstructionType::Le | InstructionType::NotEquals | InstructionType::CastBool => stack.push(
            Types::Bool,
        ),
        InstructionType::DivMod => {
            stack.push(Types::Int);
            stack.push(Types::Int);
        },
        InstructionType::CastVoid => stack.push(Types::Any),
        _ => {},
    }
    assert(stack@ =~= s0 + pushes_of(i, p@));
}

/// Appends every type of `t` to `stack`.
fn push_all(stack: &mut Vec<Types>, t: &Vec<Types>)
    ensures
        final(stack)@ == old(stack)@ + t@,
{
    let mut i: usize = 0;
    while i < t.len()
        invariant
            i <= t@.len(),
            stack@ == old(stack)@ + t@.subrange(0, i as int),
        decreases t.len() - i,
    {
        stack.push(t[i]);
        assert(t@.subrange(0, i + 1) =~= t@.subrange(0, i as int).push(t@[i as int]));
        i = i + 1;
    }
    assert(t@.subrange(0, t@.len() as int) =~= t@);
}

proof fn lemma_pop_all_len(
    stack: Seq<Types>,
    wants: Seq<Want>,
    k: int,
    popped: Seq<Types>,
    loc: Loc,
)
    requires
        0 <= k <= wants.len(),
    ensures
        pop_all(stack, wants, k, popped, loc) matches Ok((_, p)) ==> p.len() == popped.len()
            + wants.len() - k,
    decreases wants.len() - k,
{
    if k < wants.len() && stack.len() > 0 && accepts(wants[k], stack.last()) {
        lemma_pop_all_len(stack.drop_last(), wants, k + 1, popped.push(stack.last()), loc);
    }
}

fn tc_op_exec(op: &Operator, stack: &mut Vec<Types>, fns: &Functions, consts: &mut Constants) -> (r:
    Result<(), TypeError>)
    requires
        op.typ != OpType::Keyword(KeywordType::FunctionDef),
    ensures
        r is Ok <==> tc_op(state_of(old(stack)@, fns@, old(consts)@), *op) is Ok,
        r is Ok ==> tc_op(state_of(old(stack)@, fns@, old(consts)@), *op) == Ok::<
            TcState,
            TypeErrorView,
        >(state_of(final(stack)@, fns@, final(consts)@)),
        r matches Err(e) ==> tc_op(state_of(old(stack)@, fns@, old(consts)@), *op) == Err::<
            TcState,
            TypeErrorView,
        >(e@),
{
    let ghost st = state_of(stack@, fns@, consts@);
    match op.typ {
        OpType::Keyword(KeywordType::If) | OpType::Keyword(KeywordType::Do) => {
            let w = vec![Want::One(Types::Bool)];
            assert(w@ =~= seq![Want::One(Types::Bool)]);
            match pop_wanted(stack, &w, &op.loc) {
                Ok(_) => Ok(()),
                Err(e) => Err(e),
            }
        },
        OpType::Keyword(KeywordType::ConstantDef) => {
            let types = vec![Types::Int];
            assert(types@ =~= seq![Types::Int]);
            consts.push((op.text.clone(), Constant { loc: copy_loc(&op.loc), types }));
            assert(consts_view(consts@) =~= consts_view(old(consts)@).push((op.text@, seq![Types::Int])));
            Ok(())
        },
        OpType::Keyword(_) => Ok(()),
        OpType::Instruction(InstructionType::FnCall) => {
            match find_last_fn(fns, &op.text) {
                None => Err(TypeError::UnknownFunction(copy_loc(&op.loc))),
                Some(j) => {
                    let f = &fns[j].1;
                    let ghost sig = sig_of(*f);
                    assert(fns_view(fns@)[j as int] == (fns@[j as int].0@, sig));
                    let n = f.args.len();
                    let mut wants: Vec<Want> = Vec::new();
                    let mut k: usize = 0;
                    while k < n
                        invariant
                            n == f.args@.len(),
                            k <= n,
                            wants@ == arg_wants(f.args@).subrange(0, k as int),
                        decreases n - k,
                    {
                        wants.push(Want::One(f.args[n - 1 - k]));
                        assert(arg_wants(f.args@).subrange(0, k + 1) =~= arg_wants(f.args@).subrange(0, k as int).push(Want::One(f.args@[n - 1 - k])));
                        k = k + 1;
                    }
                    assert(wants@ =~= arg_wants(f.args@));
                    match pop_wanted(stack, &wants, &op.loc) {
                        Ok(_) => {
                            push_all(stack, &f.returns);
                            Ok(())
                        },
                        Err(e) => Err(e),
                    }
                },
            }
        },
        OpType::Instruction(InstructionType::ConstUse) => {
            match find_last_const(consts, &op.text) {
                None => Err(TypeError::UnknownConstant(copy_loc(&op.loc))),
                Some(j) => {
                    assert(consts_view(consts@)[j as int] == (consts@[j as int].0@, consts@[j as int].1.types@));
                    let t = copy_types(&consts[j].1.types);
                    push_all(stack, &t);
                    Ok(())
                },
            }
        },
        OpType::Instruction(i) => {
            let w = wants_exec(i);
            match pop_wanted(stack, &w, &op.loc) {
                Ok(p) => {
                    proof {
                        lemma_pop_all_len(old(stack)@, w@, 0, Seq::empty(), op.loc);
                    }
                    push_results(stack, i, &p);
                    Ok(())
                },
                Err(e) => Err(e),
            }
        },
    }
}

/// Reads the header of the function defined at `i`: its signature and
/// where its body lies.
fn parse_header(ops: &Vec<Operator>, i: usize, hi: usize) -> (r: Result<
    (Function, usize, usize),
    TypeError,
>)
    requires
        i < hi <= ops@.len(),
    ensures
        r is Ok <==> fn_header(ops@, i as int, hi as int) is Ok,
        r matches Ok((f, lo, d)) ==> fn_header(ops@, i as int, hi as int) == Ok::<
            (Sig, int, int),
            TypeErrorView,
        >((sig_of(f), lo as int, d as int)) && i < lo <= d < hi,
        r matches Err(e) ==> fn_header(ops@, i as int, hi as int) == Err::<
            (Sig, int, int),
            TypeErrorView,
        >(e@),
{
    let op = &ops[i];
    if i + 1 >= hi || ops[i + 1].typ != OpType::Instruction(InstructionType::With) {
        return Err(TypeError::MissingWith(copy_loc(&op.loc)));
    }
    let mut args: Vec<Types> = Vec::new();
    let mut rets: Vec<Types> = Vec::new();
    let mut in_returns = false;
    let mut k = i + 2;
    let ghost goal = sig_parse(ops@, i + 2, hi as int, Seq::empty(), Seq::empty(), false, op.loc);
    assert(args@ =~= Seq::<Types>::empty());
    assert(rets@ =~= Seq::<Types>::empty());
    loop
        invariant
            i + 2 <= k,
            i + 1 < hi <= ops@.len(),
            *op == ops@[i as int],
            ops@[i + 1].typ == OpType::Instruction(InstructionType::With),
            goal == sig_parse(ops@, i + 2, hi as int, Seq::empty(), Seq::empty(), false, op.loc),
            goal == sig_parse(ops@, k as int, hi as int, args@, rets@, in_returns, op.loc),
        ensures
            goal == Ok::<(Seq<Types>, Seq<Types>, int), TypeErrorView>((args@, rets@, k as int)),
            i + 2 <= k < hi,
        decreases hi - k,
    {
        if k >= hi {
            return Err(TypeError::SignatureUnterminated(copy_loc(&op.loc)));
        }
        let ty = ops[k].typ;
        if ty == OpType::Keyword(KeywordType::FunctionThen) {
            break;
        } else if ty == OpType::Instruction(InstructionType::Returns) {
            in_returns = true;
        } else {
            let a = match ty {
                OpType::Instruction(InstructionType::TypeBool) => Some(Types::Bool),
                OpType::Instruction(InstructionType::TypeInt) => Some(Types::Int),
                OpType::Instruction(InstructionType::TypePtr) => Some(Types::Ptr),
                OpType::Instruction(InstructionType::TypeStr) => Some(Types::Str),
                OpType::Instruction(InstructionType::TypeAny) => Some(Types::Any),
                _ => None,
            };
            if let Some(x) = a {
                if in_returns {
                    rets.push(x);
                } else {
                    args.push(x);
                }
            }
        }
        k = k + 1;
    }
    let t = k;
    let mut d = t + 1;
    while d < hi
        invariant
            t + 1 <= d,
            i + 2 <= t < hi <= ops@.len(),
            *op == ops@[i as int],
            ops@[i + 1].typ == OpType::Instruction(InstructionType::With),
            sig_parse(ops@, i + 2, hi as int, Seq::empty(), Seq::empty(), false, op.loc) == Ok::<(Seq<Types>, Seq<Types>, int), TypeErrorView>((args@, rets@, t as int)),
            find_done(ops@, t + 1, hi as int) == find_done(ops@, d as int, hi as int),
        decreases hi - d,
    {
        if ops[d].typ == OpType::Keyword(KeywordType::FunctionDone) {
            let f = Function { loc: copy_loc(&op.loc), args, returns: rets };
            return Ok((f, t + 1, d));
        }
        d = d + 1;
    }
    Err(TypeError::BodyUnterminated(copy_loc(&op.loc)))
}

/// Checks `ops` from `lo` up to `hi` from the given state.
fn check_range(
    ops: &Vec<Operator>,
    lo: usize,
    hi: usize,
    init_stack: Vec<Types>,
    init_fns: Functions,
    init_consts: Constants,
) -> (r: Result<(Vec<Types>, Functions, Constants), TypeError>)
    requires
        lo <= hi <= ops@.len(),
    ensures
        r is Ok <==> tc_range(ops@, lo as int, hi as int, state_of(init_stack@, init_fns@, init_consts@)) is Ok,
        r matches Ok((s, f, c)) ==> tc_range(ops@, lo as int, hi as int, state_of(init_stack@, init_fns@, init_consts@))
            == Ok::<TcState, TypeErrorView>(state_of(s@, f@, c@)),
        r matches Err(e) ==> tc_range(ops@, lo as int, hi as int, state_of(init_stack@, init_fns@, init_consts@))
            == Err::<TcState, TypeErrorView>(e@),
    decreases hi - lo,
{
    let ghost goal = tc_range(ops@, lo as int, hi as int, state_of(init_stack@, init_fns@, init_consts@));
    let mut stack = init_stack;
    let mut fns = init_fns;
    let mut consts = init_consts;
    let mut i = lo;
    while i < hi
        invariant
            lo <= i <= hi,
            hi <= ops@.len(),
            goal == tc_range(ops@, lo as int, hi as int, state_of(init_stack@, init_fns@, init_consts@)),
            goal == tc_range(ops@, i as int, hi as int, state_of(stack@, fns@, consts@)),
        decreases hi - i,
    {
        let op = &ops[i];
        if op.typ == OpType::Keyword(KeywordType::FunctionDef) {
            let (f, body_lo, d) = match parse_header(ops, i, hi) {
                Err(e) => {
                    return Err(e);
                },
                Ok(x) => x,
            };
            let params = copy_types(&f.args);
            let expected = copy_types(&f.returns);
            let loc = copy_loc(&f.loc);
            let ghost fns0 = fns@;
            let name = op.text.clone();
            let ghost entry = (name, f);
            fns.push((name, f));
            assert(fns_view(fns@) =~= fns_view(fns0).push((op.text@, sig_of(entry.1))));
            let body_fns = dup_fns(&fns);
            let body_consts = dup_consts(&consts);
            match check_range(ops, body_lo, d, params, body_fns, body_consts) {
                Err(e) => {
                    return Err(e);
                },
                Ok((end, _, _)) => {
                    if !types_eq(&end, &expected) {
                        return Err(TypeError::ReturnMismatch { loc, expected, got: end });
                    }
                },
            }
            i = d + 1;
        } else {
            let r = tc_op_exec(op, &mut stack, &fns, &mut consts);
            if let Err(e) = r {
                return Err(e);
            }
            i = i + 1;
        }
    }
    Ok((stack, fns, consts))
}

/// Simulates `ops` over a stack of types from `init_types` (or an empty
/// stack), with the given functions and constants known. Gives the final
/// stack and the tables, or the first type error. With type checking
/// disabled, everything is accepted and nothing is known.
pub fn typecheck(
    ops: Vec<Operator>,
    args: &Args,
    init_types: Option<Vec<Types>>,
    funcs: Functions,
    consts: Constants,
) -> (r: Result<(Vec<Types>, Functions, Constants), TypeError>)
    ensures
        args.unsaf ==> (r matches Ok((s, f, c)) && s@.len() == 0 && f@.len() == 0 && c@.len() == 0),
        !args.unsaf ==> ({
            let init = match init_types {
                Some(v) => v@,
                None => Seq::empty(),
            };
            let spec = tc_range(ops@, 0, ops@.len() as int, state_of(init, funcs@, consts@));
            &&& r is Ok <==> spec is Ok
            &&& r matches Ok((s, f, c)) ==> spec == Ok::<TcState, TypeErrorView>(
                state_of(s@, f@, c@),
            )
            &&& r matches Err(e) ==> spec == Err::<TcState, TypeErrorView>(e@)
        }),
{
    if args.unsaf {
        return Ok((Vec::new(), Vec::new(), Vec::new()));
    }
    let stack = match init_types {
        Some(v) => v,
        None => Vec::new(),
    };
    check_range(&ops, 0, ops.len(), stack, funcs, consts)
}

} // verus!
