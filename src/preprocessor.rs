use vstd::prelude::*;
use crate::constants::{copy_loc, InstructionType, KeywordType, Loc, OpType, Operator, TokenType};
use crate::parser::{is_builtin_word, lookup_word};
use crate::precompiler::PrecompileError;
use crate::tables::{
    constant_names, find_constant, find_function, find_memory, first_index, function_names,
    memory_names, Constant, Function, Memory,
};
use crate::text::{find_bad_char, first_bad_char, is_digit, mangle, mangled};

verus! {

/// Why preprocessing stopped.
#[derive(Debug, Clone)]
pub enum PreprocessError {
    /// A definition keyword with nothing after it.
    MissingName(Loc),
    /// A file directive with nothing after it.
    MissingPath(Loc),
    /// A file directive followed by something other than a string.
    BadPath(Loc),
    /// A definition whose name is not a word.
    NameNotWord(Loc),
    /// A definition whose name is a builtin word.
    NameIsBuiltin(Loc),
    /// A name defined twice in one namespace; `first` is the first definition.
    Redefined { kind: KeywordType, loc: Loc, first: Loc },
    /// A name already defined in another namespace, `existing`.
    Collision { kind: KeywordType, existing: KeywordType, loc: Loc, first: Loc },
    /// A name that starts with a digit.
    NameStartsWithDigit(Loc),
    /// A name with a character that names may not hold.
    NameHasBadChar(Loc, char),
    /// A memory size that could not be evaluated.
    MemorySize(PrecompileError),
    /// A memory size that did not evaluate to exactly one number.
    MemoryNotOneValue(Loc),
    /// A block with no closing `end` or `done`.
    Unterminated(Loc),
    /// A constant whose value is not an integer literal.
    ConstantNotInt(Loc),
    /// A constant not closed by `end`.
    ConstantNotClosed(Loc),
    /// `inline` given twice before one function.
    AlreadyInline(Loc),
    /// A definition or file directive inside an inline function body.
    DefinitionInInline(Loc),
    /// A word bound to no definition.
    UnknownWord(Loc),
}

/// Whether `op` is a word the preprocessor has yet to bind.
pub open spec fn is_unresolved(op: Operator) -> bool {
    op.tok_typ == TokenType::Word && op.typ == OpType::Instruction(InstructionType::Unresolved)
}

/// Whether any word of `prog` is yet to be bound.
pub open spec fn has_unresolved(prog: Seq<Operator>) -> bool {
    exists|i: int| 0 <= i < prog.len() && is_unresolved(#[trigger] prog[i])
}

/// Whether a name is known in no namespace twice nor in two namespaces.
pub open spec fn tables_wf(fs: Seq<Function>, ms: Seq<Memory>, cs: Seq<Constant>) -> bool {
    &&& crate::tables::names_unique(function_names(fs) + memory_names(ms) + constant_names(cs))
}

/// Whether `word` may be defined as a `typ` (a memory, constant or
/// function) under the name `text`: it must be a word, not builtin, and
/// not yet defined.
/// Memories are consulted first, then functions, then constants.
pub open spec fn availability(
    fs: Seq<Function>,
    ms: Seq<Memory>,
    cs: Seq<Constant>,
    word: Operator,
    text: Seq<char>,
    typ: KeywordType,
) -> Result<bool, PreprocessError> {
    if word.tok_typ != TokenType::Word {
        Err(PreprocessError::NameNotWord(word.loc))
    } else if is_builtin_word(text) {
        Err(PreprocessError::NameIsBuiltin(word.loc))
    } else if let Some(i) = first_index(memory_names(ms), text) {
        if typ == KeywordType::Memory {
            Err(PreprocessError::Redefined { kind: typ, loc: word.loc, first: ms[i].loc })
        } else {
            Err(
                PreprocessError::Collision {
                    kind: typ,
                    existing: KeywordType::Memory,
                    loc: word.loc,
                    first: ms[i].loc,
                },
            )
        }
    } else if let Some(i) = first_index(function_names(fs), text) {
        if typ == KeywordType::Function {
            Err(PreprocessError::Redefined { kind: typ, loc: word.loc, first: fs[i].loc })
        } else {
            Err(
                PreprocessError::Collision {
                    kind: typ,
                    existing: KeywordType::Function,
                    loc: word.loc,
                    first: fs[i].loc,
                },
            )
        }
    } else if let Some(i) = first_index(constant_names(cs), text) {
        if typ == KeywordType::Constant {
            Err(PreprocessError::Redefined { kind: typ, loc: word.loc, first: cs[i].loc })
        } else {
            Err(
                PreprocessError::Collision {
                    kind: typ,
                    existing: KeywordType::Constant,
                    loc: word.loc,
                    first: cs[i].loc,
                },
            )
        }
    } else {
        Ok(true)
    }
}

/// The name a definition is registered under, or why it is refused: it
/// may not start with a digit nor hold a character outside letters,
/// digits, `-`, `_` and parentheses.
pub open spec fn checked_name(name: Operator) -> Result<Seq<char>, PreprocessError> {
    let s = name.text@;
    if s.len() > 0 && is_digit(s[0]) {
        Err(PreprocessError::NameStartsWithDigit(name.loc))
    } else if let Some(i) = first_bad_char(s) {
        Err(PreprocessError::NameHasBadChar(name.loc, s[i]))
    } else {
        Ok(mangled(s))
    }
}

/// Validates a definition's name and returns it with parentheses rewritten.
pub fn check_name(name: &Operator) -> (r: Result<String, PreprocessError>)
    ensures
        r is Ok <==> checked_name(*name) is Ok,
        r matches Ok(s) ==> checked_name(*name) == Ok::<Seq<char>, PreprocessError>(s@),
        r matches Err(e) ==> checked_name(*name) == Err::<Seq<char>, PreprocessError>(e),
{
    let s = name.text.as_str();
    if s.unicode_len() > 0 {
        let c = s.get_char(0);
        if '0' <= c && c <= '9' {
            return Err(PreprocessError::NameStartsWithDigit(copy_loc(&name.loc)));
        }
    }
    match find_bad_char(s) {
        Some(i) => Err(PreprocessError::NameHasBadChar(copy_loc(&name.loc), s.get_char(i))),
        None => Ok(mangle(s)),
    }
}

/// What one operator becomes when words are bound: a function call (or
/// the body of an inline function), a memory or a constant reference, in
/// that order of priority; anything but an unbound word is kept.
pub open spec fn resolve_spec(
    fs: Seq<Function>,
    ms: Seq<Memory>,
    cs: Seq<Constant>,
    op: Operator,
) -> Result<Seq<Operator>, PreprocessError> {
    if is_unresolved(op) {
        let m = mangled(op.text@);
        if let Some(i) = first_index(function_names(fs), m) {
            if fs[i].inline {
                Ok(
                    match fs[i].tokens {
                        Some(t) => t@,
                        None => Seq::empty(),
                    },
                )
            } else {
                Ok(
                    seq![Operator { typ: OpType::Instruction(InstructionType::FnCall), text: fs[i].name, ..op }],
                )
            }
        } else if let Some(i) = first_index(memory_names(ms), op.text@) {
            Ok(
                seq![Operator { typ: OpType::Instruction(InstructionType::MemUse), addr: Some(ms[i].id), ..op }],
            )
        } else if let Some(i) = first_index(constant_names(cs), m) {
            Ok(
                seq![Operator { typ: OpType::Instruction(InstructionType::ConstUse), text: cs[i].name, ..op }],
            )
        } else {
            Err(PreprocessError::UnknownWord(op.loc))
        }
    } else {
        Ok(seq![op])
    }
}

/// One pass of word binding over `prog` from index `i`, after `acc`.
pub open spec fn expand_from(
    fs: Seq<Function>,
    ms: Seq<Memory>,
    cs: Seq<Constant>,
    prog: Seq<Operator>,
    i: int,
    acc: Seq<Operator>,
) -> Result<Seq<Operator>, PreprocessError>
    decreases prog.len() - i,
{
    if i < 0 || i >= prog.len() {
        Ok(acc)
    } else {
        match resolve_spec(fs, ms, cs, prog[i]) {
            Ok(r) => expand_from(fs, ms, cs, prog, i + 1, acc + r),
            Err(e) => Err(e),
        }
    }
}

pub open spec fn expand_spec(
    fs: Seq<Function>,
    ms: Seq<Memory>,
    cs: Seq<Constant>,
    prog: Seq<Operator>,
) -> Result<Seq<Operator>, PreprocessError> {
    expand_from(fs, ms, cs, prog, 0, Seq::empty())
}

/// The bound on passes of word binding.
pub const EXPANSION_LIMIT: usize = 50;

/// Repeated binding until no word is unbound or `EXPANSION_LIMIT` passes
/// have run; the flag tells whether the limit stopped it.
pub open spec fn fixpoint_spec(
    fs: Seq<Function>,
    ms: Seq<Memory>,
    cs: Seq<Constant>,
    prog: Seq<Operator>,
    times: nat,
) -> Result<(Seq<Operator>, bool), PreprocessError>
    decreases EXPANSION_LIMIT - times,
{
    if !has_unresolved(prog) {
        Ok((prog, false))
    } else if times >= EXPANSION_LIMIT {
        Ok((prog, true))
    } else {
        match expand_spec(fs, ms, cs, prog) {
            Ok(p2) => fixpoint_spec(fs, ms, cs, p2, times + 1),
            Err(e) => Err(e),
        }
    }
}

/// Appends a copy of every operator of `src`.
pub fn append_ops(out: &mut Vec<Operator>, src: &Vec<Operator>)
    ensures
        final(out)@ == old(out)@ + src@,
{
    let mut i: usize = 0;
    while i < src.len()
        invariant
            i <= src@.len(),
            out@ == old(out)@ + src@.subrange(0, i as int),
        decreases src.len() - i,
    {
        out.push(src[i].duplicate());
        assert(src@.subrange(0, i + 1) =~= src@.subrange(0, i as int).push(src@[i as int]));
        i = i + 1;
    }
    assert(src@.subrange(0, src@.len() as int) =~= src@);
}

pub fn has_unresolved_exec(prog: &Vec<Operator>) -> (r: bool)
    ensures
        r == has_unresolved(prog@),
{
    let mut i: usize = 0;
    while i < prog.len()
        invariant
            i <= prog@.len(),
            forall|j: int| 0 <= j < i ==> !is_unresolved(#[trigger] prog@[j]),
        decreases prog.len() - i,
    {
        if prog[i].tok_typ == TokenType::Word && prog[i].typ == OpType::Instruction(
            InstructionType::Unresolved,
        ) {
            assert(is_unresolved(prog@[i as int]));
            return true;
        }
        i = i + 1;
    }
    false
}

proof fn lemma_expand_resolved(
    fs: Seq<Function>,
    ms: Seq<Memory>,
    cs: Seq<Constant>,
    prog: Seq<Operator>,
    i: int,
)
    requires
        0 <= i <= prog.len(),
        !has_unresolved(prog),
    ensures
        expand_from(fs, ms, cs, prog, i, prog.subrange(0, i)) == Ok::<
            Seq<Operator>,
            PreprocessError,
        >(prog),
    decreases prog.len() - i,
{
    if i < prog.len() {
        assert(!is_unresolved(prog[i]));
        assert(prog.subrange(0, i) + seq![prog[i]] =~= prog.subrange(0, i + 1));
        lemma_expand_resolved(fs, ms, cs, prog, i + 1);
    } else {
        assert(prog.subrange(0, i) =~= prog);
    }
}

/// Expansion of a stream with no unbound word is a no-op: one pass gives
/// the stream back, and the repeated expansion stops at once, unlimited.
pub proof fn lemma_expansion_idempotent(
    fs: Seq<Function>,
    ms: Seq<Memory>,
    cs: Seq<Constant>,
    prog: Seq<Operator>,
)
    requires
        !has_unresolved(prog),
    ensures
        expand_spec(fs, ms, cs, prog) == Ok::<Seq<Operator>, PreprocessError>(prog),
        fixpoint_spec(fs, ms, cs, prog, 0) == Ok::<(Seq<Operator>, bool), PreprocessError>(
            (prog, false),
        ),
{
    assert(prog.subrange(0, 0) =~= Seq::<Operator>::empty());
    lemma_expand_resolved(fs, ms, cs, prog, 0);
}

/// Repeated expansion that was not stopped by its bound leaves no word
/// unbound.
pub proof fn lemma_fixpoint_resolves(
    fs: Seq<Function>,
    ms: Seq<Memory>,
    cs: Seq<Constant>,
    prog: Seq<Operator>,
    times: nat,
)
    requires
        fixpoint_spec(fs, ms, cs, prog, times) matches Ok((_, capped)) && !capped,
    ensures
        !has_unresolved(fixpoint_spec(fs, ms, cs, prog, times)->Ok_0.0),
    decreases EXPANSION_LIMIT - times,
{
    if has_unresolved(prog) && times < EXPANSION_LIMIT {
        if let Ok(p2) = expand_spec(fs, ms, cs, prog) {
            lemma_fixpoint_resolves(fs, ms, cs, p2, times + 1);
        }
    }
}

/// The tables after `text` is defined as a `kind` by the given entry.
pub open spec fn with_definition(
    fs: Seq<Function>,
    ms: Seq<Memory>,
    cs: Seq<Constant>,
    kind: KeywordType,
    f: Function,
    m: Memory,
    c: Constant,
) -> (Seq<Function>, Seq<Memory>, Seq<Constant>) {
    if kind == KeywordType::Memory {
        (fs, ms.push(m), cs)
    } else if kind == KeywordType::Function {
        (fs.push(f), ms, cs)
    } else {
        (fs, ms, cs.push(c))
    }
}

/// Once a name is defined in one namespace, defining it again fails: in
/// the same namespace as a redefinition, in another as a collision with
/// the first.
pub proof fn lemma_collision_symmetry(
    fs: Seq<Function>,
    ms: Seq<Memory>,
    cs: Seq<Constant>,
    word: Operator,
    text: Seq<char>,
    first: KeywordType,
    second: KeywordType,
    f: Function,
    m: Memory,
    c: Constant,
)
    requires
        first == KeywordType::Memory || first == KeywordType::Constant || first
            == KeywordType::Function,
        availability(fs, ms, cs, word, text, first) is Ok,
        f.name@ == text,
        m.name@ == text,
        c.name@ == text,
    ensures
        ({
            let (fs2, ms2, cs2) = with_definition(fs, ms, cs, first, f, m, c);
            let r = availability(fs2, ms2, cs2, word, text, second);
            &&& r is Err
            &&& first == second ==> r->Err_0 is Redefined
            &&& first != second ==> (r->Err_0 matches PreprocessError::Collision {
                existing,
                ..
            } && existing == first)
        }),
{
    let (fs2, ms2, cs2) = with_definition(fs, ms, cs, first, f, m, c);
    assert(first_index(memory_names(ms), text) is None);
    assert(first_index(function_names(fs), text) is None);
    assert(first_index(constant_names(cs), text) is None);
    if first == KeywordType::Memory {
        let names = memory_names(ms2);
        assert(names[ms.len() as int] == text);
        assert(first_index(names, text) is Some);
    } else if first == KeywordType::Function {
        let names = function_names(fs2);
        assert(names[fs.len() as int] == text);
        assert(first_index(names, text) is Some);
        assert(memory_names(ms2) == memory_names(ms));
    } else {
        let names = constant_names(cs2);
        assert(names[cs.len() as int] == text);
        assert(first_index(names, text) is Some);
        assert(memory_names(ms2) == memory_names(ms));
        assert(function_names(fs2) == function_names(fs));
    }
}

/// Where the `end` closing a block opened before index `k` stands, counting
/// `if` and `do` as openers nested `depth` deep.
pub open spec fn block_end(ops: Seq<Operator>, k: int, depth: nat) -> Option<int>
    decreases ops.len() - k,
{
    if k < 0 || k >= ops.len() {
        None
    } else if ops[k].typ == OpType::Keyword(KeywordType::End) {
        if depth == 0 {
            Some(k)
        } else {
            block_end(ops, k + 1, (depth - 1) as nat)
        }
    } else if ops[k].typ == OpType::Keyword(KeywordType::If) || ops[k].typ == OpType::Keyword(
        KeywordType::Do,
    ) {
        block_end(ops, k + 1, depth + 1)
    } else {
        block_end(ops, k + 1, depth)
    }
}

/// Whether `t` belongs to a function signature.
pub open spec fn is_signature_op(t: OpType) -> bool {
    match t {
        OpType::Instruction(InstructionType::TypeAny) | OpType::Instruction(InstructionType::TypeBool)
        | OpType::Instruction(InstructionType::TypeInt) | OpType::Instruction(InstructionType::TypePtr)
        | OpType::Instruction(InstructionType::TypeStr) | OpType::Instruction(InstructionType::TypeVoid)
        | OpType::Instruction(InstructionType::With) | OpType::Instruction(InstructionType::Returns) => true,
        _ => false,
    }
}

/// Whether `t` starts a definition an inline body may not hold, or names a
/// file. The body is copied to every call site, so a memory defined there
/// would be allocated once per call and a function defined once per call;
/// constants are allowed (see `inline_consts`).
pub open spec fn is_definition_keyword(t: OpType) -> bool {
    match t {
        OpType::Keyword(KeywordType::Inline) | OpType::Keyword(KeywordType::Include)
        | OpType::Keyword(KeywordType::Memory) | OpType::Keyword(KeywordType::Function) => true,
        _ => false,
    }
}

/// Constants defined in an inline body, as name, location and value.
pub open spec fn local_names(l: Seq<(Seq<char>, Loc, usize)>) -> Seq<Seq<char>> {
    l.map_values(|e: (Seq<char>, Loc, usize)| e.0)
}

/// Reads the constant definitions of an inline body from index `k` on,
/// after the constants `locals` and the operators `out` already kept.
/// Each `const name value end` is checked like a constant defined outside
/// (against the tables and the constants of the body before it) and is
/// taken out; everything else is kept.
pub open spec fn inline_consts(
    fs: Seq<Function>,
    ms: Seq<Memory>,
    cs: Seq<Constant>,
    body: Seq<Operator>,
    k: int,
    locals: Seq<(Seq<char>, Loc, usize)>,
    out: Seq<Operator>,
) -> Result<(Seq<Operator>, Seq<(Seq<char>, Loc, usize)>), PreprocessError>
    decreases body.len() - k,
{
    if k < 0 || k >= body.len() {
        Ok((out, locals))
    } else {
        let op = body[k];
        if op.typ == OpType::Keyword(KeywordType::Constant) {
            if k + 1 >= body.len() {
                Err(PreprocessError::MissingName(op.loc))
            } else {
                let name = body[k + 1];
                match checked_name(name) {
                    Err(e) => Err(e),
                    Ok(nm) => match availability(fs, ms, cs, name, nm, KeywordType::Constant) {
                        Err(e) => Err(e),
                        Ok(_) => if let Some(i) = first_index(local_names(locals), nm) {
                            Err(
                                PreprocessError::Redefined {
                                    kind: KeywordType::Constant,
                                    loc: name.loc,
                                    first: locals[i].1,
                                },
                            )
                        } else if k + 2 >= body.len() || body[k + 2].tok_typ != TokenType::Int {
                            Err(PreprocessError::ConstantNotInt(op.loc))
                        } else if k + 3 >= body.len() || body[k + 3].typ != OpType::Keyword(
                            KeywordType::End,
                        ) {
                            Err(PreprocessError::ConstantNotClosed(op.loc))
                        } else {
                            inline_consts(
                                fs,
                                ms,
                                cs,
                                body,
                                k + 4,
                                locals.push((nm, name.loc, body[k + 2].value)),
                                out,
                            )
                        },
                    },
                }
            }
        } else {
            inline_consts(fs, ms, cs, body, k + 1, locals, out.push(op))
        }
    }
}

/// A word of an inline body bound to a constant of that body becomes the
/// constant's value.
pub open spec fn bind_local(locals: Seq<(Seq<char>, Loc, usize)>, op: Operator) -> Operator {
    if is_unresolved(op) {
        match first_index(local_names(locals), mangled(op.text@)) {
            Some(i) => Operator {
                typ: OpType::Instruction(InstructionType::PushInt),
                tok_typ: TokenType::Int,
                value: locals[i].2,
                ..op
            },
            None => op,
        }
    } else {
        op
    }
}

pub open spec fn bind_locals_spec(locals: Seq<(Seq<char>, Loc, usize)>, b: Seq<Operator>) -> Seq<
    Operator,
> {
    b.map_values(|op: Operator| bind_local(locals, op))
}

/// An inline body preprocessed on its own: its constants read and bound
/// to their values, then its words bound against the tables.
pub open spec fn inline_resolved(
    fs: Seq<Function>,
    ms: Seq<Memory>,
    cs: Seq<Constant>,
    body: Seq<Operator>,
) -> Result<Seq<Operator>, PreprocessError> {
    match inline_consts(fs, ms, cs, body, 0, Seq::empty(), Seq::empty()) {
        Err(e) => Err(e),
        Ok((b, l)) => match fixpoint_spec(fs, ms, cs, bind_locals_spec(l, b), 0) {
            Err(e) => Err(e),
            Ok((r, _)) => Ok(r),
        },
    }
}

pub open spec fn locals_view(l: Seq<(String, Loc, usize)>) -> Seq<(Seq<char>, Loc, usize)> {
    l.map_values(|e: (String, Loc, usize)| (e.0@, e.1, e.2))
}

fn find_local(l: &Vec<(String, Loc, usize)>, name: &String) -> (r: Option<usize>)
    ensures
        r matches Some(i) ==> Some(i as int) == first_index(local_names(locals_view(l@)), name@)
            && i < l@.len(),
        r is None ==> first_index(local_names(locals_view(l@)), name@) is None,
{
    let ghost names = local_names(locals_view(l@));
    let mut i: usize = 0;
    while i < l.len()
        invariant
            i <= l@.len(),
            names == local_names(locals_view(l@)),
            forall|j: int| 0 <= j < i ==> names[j] != name@,
        decreases l.len() - i,
    {
        if l[i].0 == *name {
            proof {
                crate::tables::lemma_first_index(names, name@, i as int);
            }
            return Some(i);
        }
        i = i + 1;
    }
    None
}

/// Binds the words of `b` that name constants of `l` to their values.
fn bind_locals(b: &Vec<Operator>, l: &Vec<(String, Loc, usize)>) -> (r: Vec<Operator>)
    ensures
        r@ == bind_locals_spec(locals_view(l@), b@),
{
    let mut out: Vec<Operator> = Vec::new();
    let mut i: usize = 0;
    while i < b.len()
        invariant
            i <= b@.len(),
            out@ == bind_locals_spec(locals_view(l@), b@.subrange(0, i as int)),
        decreases b.len() - i,
    {
        let op = &b[i];
        let mut o = op.duplicate();
        if op.tok_typ == TokenType::Word && op.typ == OpType::Instruction(InstructionType::Unresolved) {
            let m = mangle(op.text.as_str());
            if let Some(j) = find_local(l, &m) {
                o.typ = OpType::Instruction(InstructionType::PushInt);
                o.tok_typ = TokenType::Int;
                o.value = l[j].2;
            }
        }
        out.push(o);
        assert(bind_locals_spec(locals_view(l@), b@.subrange(0, i + 1)) =~= bind_locals_spec(
            locals_view(l@),
            b@.subrange(0, i as int),
        ).push(bind_local(locals_view(l@), b@[i as int])));
        i = i + 1;
    }
    assert(b@.subrange(0, b@.len() as int) =~= b@);
    out
}

/// The body of an inline function read from index `k` on, after `acc`:
/// the signature before `then` is left out, and the `done` at depth zero
/// ends it. Gives the body and the index of that `done`.
pub open spec fn inline_body(
    ops: Seq<Operator>,
    k: int,
    depth: int,
    acc: Seq<Operator>,
    loc: Loc,
) -> Result<(Seq<Operator>, int), PreprocessError>
    decreases ops.len() - k,
{
    if k < 0 || k >= ops.len() {
        Err(PreprocessError::Unterminated(loc))
    } else {
        let op = ops[k];
        if is_definition_keyword(op.typ) {
            Err(PreprocessError::DefinitionInInline(op.loc))
        } else if op.typ == OpType::Keyword(KeywordType::FunctionThen) {
            inline_body(ops, k + 1, depth + 1, if depth >= 0 { acc.push(op) } else { acc }, loc)
        } else if op.typ == OpType::Keyword(KeywordType::FunctionDone) {
            if depth == 0 {
                Ok((acc, k))
            } else {
                inline_body(ops, k + 1, depth - 1, acc, loc)
            }
        } else if is_signature_op(op.typ) && depth < 0 {
            inline_body(ops, k + 1, depth, acc, loc)
        } else {
            inline_body(ops, k + 1, depth, acc.push(op), loc)
        }
    }
}

/// Finds the `end` that closes a block whose contents start at `start`.
pub fn find_block_end(ops: &Vec<Operator>, start: usize) -> (r: Option<usize>)
    ensures
        r matches Some(e) ==> block_end(ops@, start as int, 0) == Some(e as int) && start <= e
            < ops@.len(),
        r is None ==> block_end(ops@, start as int, 0) is None,
{
    let mut k = start;
    let mut depth: usize = 0;
    while k < ops.len()
        invariant
            start <= k,
            depth <= k - start,
            block_end(ops@, start as int, 0) == block_end(ops@, k as int, depth as nat),
        decreases ops.len() - k,
    {
        let t = ops[k].typ;
        if t == OpType::Keyword(KeywordType::End) {
            if depth == 0 {
                return Some(k);
            }
            depth = depth - 1;
        } else if t == OpType::Keyword(KeywordType::If) || t == OpType::Keyword(KeywordType::Do) {
            depth = depth + 1;
        }
        k = k + 1;
    }
    None
}

/// A copy of `ops` from `from` up to `to`.
pub fn slice_ops(ops: &Vec<Operator>, from: usize, to: usize) -> (r: Vec<Operator>)
    requires
        from <= to <= ops@.len(),
    ensures
        r@ == ops@.subrange(from as int, to as int),
{
    let mut out: Vec<Operator> = Vec::new();
    let mut k = from;
    while k < to
        invariant
            from <= k <= to,
            to <= ops@.len(),
            out@ == ops@.subrange(from as int, k as int),
        decreases to - k,
    {
        out.push(ops[k].duplicate());
        assert(ops@.subrange(from as int, k + 1) =~= ops@.subrange(from as int, k as int).push(
            ops@[k as int],
        ));
        k = k + 1;
    }
    out
}

/// Reads the body of an inline function starting at `start`.
pub fn capture_inline_body(ops: &Vec<Operator>, start: usize, loc: &Loc) -> (r: Result<
    (Vec<Operator>, usize),
    PreprocessError,
>)
    ensures
        r is Ok <==> inline_body(ops@, start as int, -1, Seq::empty(), *loc) is Ok,
        r matches Ok((b, e)) ==> inline_body(ops@, start as int, -1, Seq::empty(), *loc) == Ok::<
            (Seq<Operator>, int),
            PreprocessError,
        >((b@, e as int)) && start <= e < ops@.len(),
        r matches Err(e) ==> inline_body(ops@, start as int, -1, Seq::empty(), *loc) == Err::<
            (Seq<Operator>, int),
            PreprocessError,
        >(e),
{
    let mut acc: Vec<Operator> = Vec::new();
    let mut k = start;
    let mut depth: i128 = -1;
    while k < ops.len()
        invariant
            start <= k,
            -1 - (k - start) <= depth <= k - start,
            inline_body(ops@, start as int, -1, Seq::empty(), *loc) == inline_body(
                ops@,
                k as int,
                depth as int,
                acc@,
                *loc,
            ),
        decreases ops.len() - k,
    {
        let op = &ops[k];
        let t = op.typ;
        let is_def = match t {
            OpType::Keyword(KeywordType::Inline) | OpType::Keyword(KeywordType::Include)
            | OpType::Keyword(KeywordType::Memory) | OpType::Keyword(KeywordType::Function) => true,
            _ => false,
        };
        let is_sig = match t {
            OpType::Instruction(InstructionType::TypeAny) | OpType::Instruction(InstructionType::TypeBool)
            | OpType::Instruction(InstructionType::TypeInt) | OpType::Instruction(InstructionType::TypePtr)
            | OpType::Instruction(InstructionType::TypeStr) | OpType::Instruction(InstructionType::TypeVoid)
            | OpType::Instruction(InstructionType::With) | OpType::Instruction(InstructionType::Returns) => true,
            _ => false,
        };
        if is_def {
            return Err(PreprocessError::DefinitionInInline(copy_loc(&op.loc)));
        } else if t == OpType::Keyword(KeywordType::FunctionThen) {
            if depth >= 0 {
                acc.push(op.duplicate());
            }
            depth = depth + 1;
        } else if t == OpType::Keyword(KeywordType::FunctionDone) {
            if depth == 0 {
                return Ok((acc, k));
            }
            depth = depth - 1;
        } else if is_sig && depth < 0 {
        } else {
            acc.push(op.duplicate());
        }
        k = k + 1;
    }
    Err(PreprocessError::Unterminated(copy_loc(loc)))
}

proof fn lemma_unique_insert(o: Seq<Seq<char>>, pos: int, x: Seq<char>)
    requires
        crate::tables::names_unique(o),
        0 <= pos <= o.len(),
        forall|i: int| 0 <= i < o.len() ==> o[i] != x,
    ensures
        crate::tables::names_unique(o.insert(pos, x)),
{
    let n = o.insert(pos, x);
    assert forall|i: int, j: int| 0 <= i < j < n.len() implies n[i] != n[j] by {
        let oi = if i < pos { i } else { i - 1 };
        let oj = if j < pos { j } else { j - 1 };
        if i != pos && j != pos {
            assert(n[i] == o[oi]);
            assert(n[j] == o[oj]);
        } else if i == pos {
            assert(n[j] == o[oj]);
        } else {
            assert(n[i] == o[oi]);
        }
    }
}

/// Defining a name that is available keeps every name known once.
pub proof fn lemma_definition_keeps_wf(
    fs: Seq<Function>,
    ms: Seq<Memory>,
    cs: Seq<Constant>,
    word: Operator,
    text: Seq<char>,
    kind: KeywordType,
    f: Function,
    m: Memory,
    c: Constant,
)
    requires
        tables_wf(fs, ms, cs),
        availability(fs, ms, cs, word, text, kind) is Ok,
        f.name@ == text,
        m.name@ == text,
        c.name@ == text,
    ensures
        ({
            let (fs2, ms2, cs2) = with_definition(fs, ms, cs, kind, f, m, c);
            tables_wf(fs2, ms2, cs2)
        }),
{
    let fnn = function_names(fs);
    let mn = memory_names(ms);
    let cn = constant_names(cs);
    let o = fnn + mn + cn;
    assert(first_index(mn, text) is None);
    assert(first_index(fnn, text) is None);
    assert(first_index(cn, text) is None);
    assert forall|i: int| 0 <= i < o.len() implies o[i] != text by {
        if i < fnn.len() {
            assert(o[i] == fnn[i]);
        } else if i < fnn.len() + mn.len() {
            assert(o[i] == mn[i - fnn.len()]);
        } else {
            assert(o[i] == cn[i - fnn.len() - mn.len()]);
        }
    }
    let (fs2, ms2, cs2) = with_definition(fs, ms, cs, kind, f, m, c);
    let n = function_names(fs2) + memory_names(ms2) + constant_names(cs2);
    if kind == KeywordType::Memory {
        assert(n =~= o.insert((fnn.len() + mn.len()) as int, text));
        lemma_unique_insert(o, (fnn.len() + mn.len()) as int, text);
    } else if kind == KeywordType::Function {
        assert(n =~= o.insert(fnn.len() as int, text));
        lemma_unique_insert(o, fnn.len() as int, text);
    } else {
        assert(n =~= o.insert(o.len() as int, text));
        lemma_unique_insert(o, o.len() as int, text);
    }
}

/// A file the preprocessor needs before it can go on: its operators are to
/// be spliced in where the directive stood.
#[derive(Debug, Clone)]
pub struct FileRequest {
    /// The path as written.
    pub path: String,
    /// Where it was written; `loc.file` is the file that asks.
    pub loc: Loc,
    /// Whether the path is relative to that file (it starts with `.`);
    /// otherwise the search directories are tried in order.
    pub relative: bool,
}

/// What one step of preprocessing asks of its caller.
#[derive(Debug, Clone)]
pub enum StepOutcome {
    Continue,
    NeedFile(FileRequest),
}

/// Where a memory definition at `p` fails, if it does.
pub open spec fn memory_error(a: Preprocessor, p: int) -> Option<PreprocessError> {
    let ops = a.input@;
    let op = ops[p];
    if p + 1 >= ops.len() {
        Some(PreprocessError::MissingName(op.loc))
    } else {
        let name = ops[p + 1];
        match availability(
            a.functions@,
            a.memories@,
            a.constants@,
            name,
            name.text@,
            KeywordType::Memory,
        ) {
            Err(e) => Some(e),
            Ok(_) => match block_end(ops, p + 2, 0) {
                None => Some(PreprocessError::Unterminated(op.loc)),
                Some(e) => match crate::precompiler::precompile_spec(ops.subrange(p + 2, e)) {
                    Err(pe) => Some(PreprocessError::MemorySize(pe)),
                    Ok(v) => if v.len() != 1 {
                        Some(PreprocessError::MemoryNotOneValue(op.loc))
                    } else {
                        None
                    },
                },
            },
        }
    }
}

/// Where a function definition at `p` fails, if it does.
pub open spec fn function_error(a: Preprocessor, p: int) -> Option<PreprocessError> {
    let ops = a.input@;
    let op = ops[p];
    if p + 1 >= ops.len() {
        Some(PreprocessError::MissingName(op.loc))
    } else {
        let name = ops[p + 1];
        match checked_name(name) {
            Err(e) => Some(e),
            Ok(nm) => match availability(
                a.functions@,
                a.memories@,
                a.constants@,
                name,
                nm,
                KeywordType::Function,
            ) {
                Err(e) => Some(e),
                Ok(_) => if a.inline_next {
                    match inline_body(ops, p + 2, -1, Seq::empty(), op.loc) {
                        Err(e) => Some(e),
                        Ok((body, _)) => match inline_resolved(
                            a.functions@,
                            a.memories@,
                            a.constants@,
                            body,
                        ) {
                            Err(e) => Some(e),
                            Ok(_) => None,
                        },
                    }
                } else {
                    None
                },
            },
        }
    }
}

/// Where a constant definition at `p` fails, if it does.
pub open spec fn constant_error(a: Preprocessor, p: int) -> Option<PreprocessError> {
    let ops = a.input@;
    let op = ops[p];
    if p + 1 >= ops.len() {
        Some(PreprocessError::MissingName(op.loc))
    } else {
        let name = ops[p + 1];
        match checked_name(name) {
            Err(e) => Some(e),
            Ok(nm) => match availability(
                a.functions@,
                a.memories@,
                a.constants@,
                name,
                nm,
                KeywordType::Constant,
            ) {
                Err(e) => Some(e),
                Ok(_) => if p + 2 >= ops.len() || ops[p + 2].tok_typ != TokenType::Int {
                    Some(PreprocessError::ConstantNotInt(op.loc))
                } else if p + 3 >= ops.len() || ops[p + 3].typ != OpType::Keyword(
                    KeywordType::End,
                ) {
                    Some(PreprocessError::ConstantNotClosed(op.loc))
                } else {
                    None
                },
            },
        }
    }
}

/// Where reading the operator at `pos` fails, if it does.
pub open spec fn step_error(a: Preprocessor) -> Option<PreprocessError> {
    let ops = a.input@;
    let p = a.pos as int;
    let op = ops[p];
    match op.typ {
        OpType::Keyword(KeywordType::Include) => if p + 1 >= ops.len() {
            Some(PreprocessError::MissingPath(op.loc))
        } else if ops[p + 1].tok_typ != TokenType::String {
            Some(PreprocessError::BadPath(ops[p + 1].loc))
        } else {
            None
        },
        OpType::Keyword(KeywordType::Memory) => memory_error(a, p),
        OpType::Keyword(KeywordType::Function) => function_error(a, p),
        OpType::Keyword(KeywordType::Constant) => constant_error(a, p),
        OpType::Keyword(KeywordType::Inline) => if a.inline_next {
            Some(PreprocessError::AlreadyInline(op.loc))
        } else {
            None
        },
        _ => None,
    }
}

/// `b` is `a` with one more element at the end.
pub open spec fn grown<T>(a: Seq<T>, b: Seq<T>) -> bool {
    b == a.push(b.last())
}

/// What reading the operator at `pos` does when it succeeds, taking `a`
/// to `b` with outcome `out`:
/// - a file directive asks for its file and skips the path;
/// - `memory name size end` evaluates the size, emits the memory operator
///   with its size and id, and records the memory;
/// - `fn name ...` records the function; an inline one with its body
///   fully bound, any other emitting a definition marker;
/// - `const name value end` records the constant and emits a marker with
///   its value;
/// - `inline` marks the next function; anything else is copied.
pub open spec fn step_effect(a: Preprocessor, b: Preprocessor, out: StepOutcome) -> bool {
    let ops = a.input@;
    let p = a.pos as int;
    let op = ops[p];
    let fs = a.functions@;
    let ms = a.memories@;
    let cs = a.constants@;
    &&& b.input@ == ops
    &&& match op.typ {
        OpType::Keyword(KeywordType::Include) => {
            let path = ops[p + 1];
            &&& out matches StepOutcome::NeedFile(r)
            &&& out->NeedFile_0.path == path.text
            &&& out->NeedFile_0.loc == path.loc
            &&& out->NeedFile_0.relative == (path.text@.len() > 0 && path.text@[0] == '.')
            &&& b.pos == p + 2
            &&& b.program@ == a.program@
            &&& b.functions@ == fs && b.memories@ == ms && b.constants@ == cs
            &&& b.inline_next == a.inline_next
        },
        OpType::Keyword(KeywordType::Memory) => {
            let name = ops[p + 1];
            let e = block_end(ops, p + 2, 0)->Some_0;
            let v = crate::precompiler::precompile_spec(ops.subrange(p + 2, e))->Ok_0;
            &&& out is Continue
            &&& b.pos == e + 1
            &&& b.program@ == a.program@.push(
                Operator { value: v[0], addr: Some(ms.len() as usize), ..op },
            )
            &&& b.memories@ == ms.push(Memory { loc: op.loc, name: name.text, id: ms.len() as usize })
            &&& b.functions@ == fs && b.constants@ == cs
            &&& b.inline_next == a.inline_next
        },
        OpType::Keyword(KeywordType::Function) => {
            let name = ops[p + 1];
            let nm = checked_name(name)->Ok_0;
            let f = b.functions@.last();
            &&& out is Continue
            &&& grown(fs, b.functions@)
            &&& f.loc == name.loc && f.name@ == nm && f.inline == a.inline_next
            &&& b.memories@ == ms && b.constants@ == cs
            &&& !b.inline_next
            &&& if a.inline_next {
                let (body, end) = inline_body(ops, p + 2, -1, Seq::empty(), op.loc)->Ok_0;
                &&& f.tokens matches Some(t)
                &&& f.tokens->Some_0@ == inline_resolved(fs, ms, cs, body)->Ok_0
                &&& b.pos == end + 1
                &&& b.program@ == a.program@
            } else {
                let d = b.program@.last();
                &&& f.tokens is None
                &&& b.pos == p + 2
                &&& grown(a.program@, b.program@)
                &&& d.text@ == nm
                &&& (Operator { text: op.text, ..d }) == (Operator {
                    typ: OpType::Keyword(KeywordType::FunctionDef),
                    ..op
                })
            }
        },
        OpType::Keyword(KeywordType::Constant) => {
            let name = ops[p + 1];
            let nm = checked_name(name)->Ok_0;
            let c = b.constants@.last();
            let d = b.program@.last();
            &&& out is Continue
            &&& grown(cs, b.constants@)
            &&& c.loc == name.loc && c.name@ == nm
            &&& grown(a.program@, b.program@)
            &&& d.text@ == nm
            &&& (Operator { text: op.text, ..d }) == (Operator {
                typ: OpType::Keyword(KeywordType::ConstantDef),
                value: ops[p + 2].value,
                ..op
            })
            &&& b.pos == p + 4
            &&& b.functions@ == fs && b.memories@ == ms
            &&& b.inline_next == a.inline_next
        },
        OpType::Keyword(KeywordType::Inline) => {
            &&& out is Continue
            &&& b.pos == p + 1
            &&& b.program@ == a.program@
            &&& b.functions@ == fs && b.memories@ == ms && b.constants@ == cs
            &&& b.inline_next
        },
        _ => {
            &&& out is Continue
            &&& b.pos == p + 1
            &&& b.program@ == a.program@.push(op)
            &&& b.functions@ == fs && b.memories@ == ms && b.constants@ == cs
            &&& b.inline_next == a.inline_next
        },
    }
}

/// Where preprocessing stands when it returns.
#[derive(Debug, Clone)]
pub enum Progress {
    /// All input is read and words are bound; `capped` tells whether the
    /// bound on passes stopped the binding.
    Finished { capped: bool },
    /// The file asked for is to be supplied before preprocessing goes on.
    NeedFile(FileRequest),
}

/// `b` follows from `a` by one successful step that asks for nothing.
pub open spec fn ran(a: Preprocessor, b: Preprocessor) -> bool {
    &&& a.pos < a.input@.len()
    &&& step_error(a) is None
    &&& step_effect(a, b, StepOutcome::Continue)
}

/// Each state of `t` follows from the one before by a step.
pub open spec fn runs(t: Seq<Preprocessor>) -> bool {
    forall|k: int| 0 <= k < t.len() - 1 ==> #[trigger] ran(t[k], t[k + 1])
}

/// How a run that reached `a` ends in `b` with result `r`: with all input
/// read and words bound, with a step that asks for a file, or with the
/// error of a step or of binding.
pub open spec fn run_ends(
    a: Preprocessor,
    b: Preprocessor,
    r: Result<Progress, PreprocessError>,
) -> bool {
    if a.pos >= a.input@.len() {
        let fx = fixpoint_spec(a.functions@, a.memories@, a.constants@, a.program@, 0);
        match r {
            Ok(Progress::Finished { capped }) => fx == Ok::<
                (Seq<Operator>, bool),
                PreprocessError,
            >((b.program@, capped)) && b == (Preprocessor { program: b.program, ..a }),
            Ok(Progress::NeedFile(_)) => false,
            Err(e) => fx == Err::<(Seq<Operator>, bool), PreprocessError>(e) && b == a,
        }
    } else {
        match r {
            Ok(Progress::Finished { .. }) => false,
            Ok(Progress::NeedFile(req)) => step_error(a) is None && step_effect(
                a,
                b,
                StepOutcome::NeedFile(req),
            ),
            Err(e) => step_error(a) == Some(e),
        }
    }
}

/// A step that asks for a file asks for the same file, and leaves the same
/// state, whenever it is taken from the same state: what is read next
/// depends on the directive alone.
pub proof fn lemma_file_request_determined(
    a: Preprocessor,
    b1: Preprocessor,
    b2: Preprocessor,
    r1: FileRequest,
    r2: FileRequest,
)
    requires
        a.pos < a.input@.len(),
        step_effect(a, b1, StepOutcome::NeedFile(r1)),
        step_effect(a, b2, StepOutcome::NeedFile(r2)),
    ensures
        r1 == r2,
        b1.input@ == b2.input@,
        b1.pos == b2.pos,
        b1.program@ == b2.program@,
        b1.functions@ == b2.functions@,
        b1.memories@ == b2.memories@,
        b1.constants@ == b2.constants@,
        b1.inline_next == b2.inline_next,
{
}

/// An operator that preprocessing copies as it is: no word left to bind,
/// no definition, no file directive, no `inline`.
pub open spec fn plain_op(op: Operator) -> bool {
    &&& !is_unresolved(op)
    &&& op.typ != OpType::Keyword(KeywordType::Include)
    &&& op.typ != OpType::Keyword(KeywordType::Memory)
    &&& op.typ != OpType::Keyword(KeywordType::Constant)
    &&& op.typ != OpType::Keyword(KeywordType::Function)
    &&& op.typ != OpType::Keyword(KeywordType::Inline)
}

proof fn lemma_plain_prefix(t: Seq<Preprocessor>, k: int)
    requires
        runs(t),
        0 <= k < t.len(),
        t[0].pos <= t[0].input@.len(),
        forall|i: int| t[0].pos <= i < t[0].input@.len() ==> plain_op(#[trigger] t[0].input@[i]),
    ensures
        t[k].input@ == t[0].input@,
        t[k].pos == t[0].pos + k,
        t[k].pos <= t[0].input@.len(),
        t[k].program@ == t[0].program@ + t[0].input@.subrange(t[0].pos as int, t[0].pos + k),
        t[k].functions@ == t[0].functions@,
        t[k].memories@ == t[0].memories@,
        t[k].constants@ == t[0].constants@,
        t[k].inline_next == t[0].inline_next,
    decreases k,
{
    if k == 0 {
        assert(t[0].input@.subrange(t[0].pos as int, t[0].pos as int) =~= Seq::<Operator>::empty());
        assert(t[0].program@ + Seq::<Operator>::empty() =~= t[0].program@);
    } else {
        lemma_plain_prefix(t, k - 1);
        let j = k - 1;
        assert(ran(t[j], t[j + 1]));
        let a = t[k - 1];
        assert(plain_op(t[0].input@[a.pos as int]));
        assert(t[0].input@.subrange(t[0].pos as int, t[0].pos + k) =~= t[0].input@.subrange(
            t[0].pos as int,
            t[0].pos + k - 1,
        ).push(a.input@[a.pos as int]));
    }
}

/// Preprocessing a stream with no definition, no file directive, no
/// `inline` and no word to bind copies it unchanged after what was
/// written, finds nothing to expand, and defines nothing.
pub proof fn lemma_plain_stream_unchanged(
    t: Seq<Preprocessor>,
    b: Preprocessor,
    r: Result<Progress, PreprocessError>,
)
    requires
        runs(t),
        t.len() >= 1,
        run_ends(t.last(), b, r),
        t[0].pos <= t[0].input@.len(),
        forall|i: int| t[0].pos <= i < t[0].input@.len() ==> plain_op(#[trigger] t[0].input@[i]),
        !has_unresolved(t[0].program@),
    ensures
        r == Ok::<Progress, PreprocessError>(Progress::Finished { capped: false }),
        b.program@ == t[0].program@ + t[0].input@.subrange(
            t[0].pos as int,
            t[0].input@.len() as int,
        ),
        b.functions@ == t[0].functions@,
        b.memories@ == t[0].memories@,
        b.constants@ == t[0].constants@,
{
    let k = t.len() - 1;
    lemma_plain_prefix(t, k);
    let a = t.last();
    if a.pos < a.input@.len() {
        assert(plain_op(t[0].input@[a.pos as int]));
        assert(step_error(a) is None);
    } else {
        let prog = a.program@;
        assert(a.pos == t[0].input@.len());
        assert(!has_unresolved(prog)) by {
            if has_unresolved(prog) {
                let i = choose|i: int| 0 <= i < prog.len() && is_unresolved(#[trigger] prog[i]);
                if i >= t[0].program@.len() {
                    assert(prog[i] == t[0].input@[t[0].pos + i - t[0].program@.len()]);
                } else {
                    assert(prog[i] == t[0].program@[i]);
                }
            }
        }
    }
}

/// The preprocessor: reads `input` from `pos` on, writes `program`, and
/// grows the three definition tables.
#[derive(Debug, Clone)]
pub struct Preprocessor {
    pub program: Vec<Operator>,
    pub functions: Vec<Function>,
    pub memories: Vec<Memory>,
    pub constants: Vec<Constant>,
    /// Operators to read; those before `pos` are read.
    pub input: Vec<Operator>,
    pub pos: usize,
    /// Whether `inline` was read and the next function is inline.
    pub inline_next: bool,
}

impl Preprocessor {
    /// The tables hold each name once, and memory ids are their indices.
    pub open spec fn wf(&self) -> bool {
        &&& tables_wf(self.functions@, self.memories@, self.constants@)
        &&& forall|i: int| 0 <= i < self.memories@.len() ==> #[trigger] self.memories@[i].id == i
        &&& self.pos <= self.input@.len()
    }

    pub fn new(prog: Vec<Operator>, _args: &crate::args::Args) -> (r: Self)
        ensures
            r.wf(),
            r.input@ == prog@,
            r.pos == 0,
            r.program@.len() == 0,
            r.functions@.len() == 0,
            r.memories@.len() == 0,
            r.constants@.len() == 0,
            !r.inline_next,
    {
        let r = Preprocessor {
            program: Vec::new(),
            functions: Vec::new(),
            memories: Vec::new(),
            constants: Vec::new(),
            input: prog,
            pos: 0,
            inline_next: false,
        };
        assert(function_names(r.functions@) + memory_names(r.memories@) + constant_names(
            r.constants@,
        ) =~= Seq::<Seq<char>>::empty());
        r
    }

    /// Whether `word` may be defined as a `typ` under its own text.
    pub fn is_word_available(&self, word: &Operator, typ: KeywordType) -> (r: Result<
        bool,
        PreprocessError,
    >)
        requires
            typ == KeywordType::Memory || typ == KeywordType::Constant || typ
                == KeywordType::Function,
        ensures
            r == availability(
                self.functions@,
                self.memories@,
                self.constants@,
                *word,
                word.text@,
                typ,
            ),
    {
        self.name_available(word, &word.text, typ)
    }

    fn name_available(&self, word: &Operator, text: &String, typ: KeywordType) -> (r: Result<
        bool,
        PreprocessError,
    >)
        ensures
            r == availability(self.functions@, self.memories@, self.constants@, *word, text@, typ),
    {
        if word.tok_typ != TokenType::Word {
            return Err(PreprocessError::NameNotWord(copy_loc(&word.loc)));
        }
        if lookup_word(text.as_str(), &word.loc) != OpType::Instruction(InstructionType::Unresolved) {
            return Err(PreprocessError::NameIsBuiltin(copy_loc(&word.loc)));
        }
        if let Some(i) = find_memory(&self.memories, text) {
            let first = copy_loc(&self.memories[i].loc);
            if typ == KeywordType::Memory {
                return Err(PreprocessError::Redefined { kind: typ, loc: copy_loc(&word.loc), first });
            }
            return Err(
                PreprocessError::Collision {
                    kind: typ,
                    existing: KeywordType::Memory,
                    loc: copy_loc(&word.loc),
                    first,
                },
            );
        }
        if let Some(i) = find_function(&self.functions, text) {
            let first = copy_loc(&self.functions[i].loc);
            if typ == KeywordType::Function {
                return Err(PreprocessError::Redefined { kind: typ, loc: copy_loc(&word.loc), first });
            }
            return Err(
                PreprocessError::Collision {
                    kind: typ,
                    existing: KeywordType::Function,
                    loc: copy_loc(&word.loc),
                    first,
                },
            );
        }
        if let Some(i) = find_constant(&self.constants, text) {
            let first = copy_loc(&self.constants[i].loc);
            if typ == KeywordType::Constant {
                return Err(PreprocessError::Redefined { kind: typ, loc: copy_loc(&word.loc), first });
            }
            return Err(
                PreprocessError::Collision {
                    kind: typ,
                    existing: KeywordType::Constant,
                    loc: copy_loc(&word.loc),
                    first,
                },
            );
        }
        Ok(true)
    }

    /// Binds one operator and appends what it becomes to `out`.
    fn resolve_into(&self, op: &Operator, out: &mut Vec<Operator>) -> (r: Result<(), PreprocessError>)
        ensures
            r is Ok <==> resolve_spec(self.functions@, self.memories@, self.constants@, *op) is Ok,
            r is Ok ==> final(out)@ == old(out)@ + resolve_spec(
                self.functions@,
                self.memories@,
                self.constants@,
                *op,
            )->Ok_0,
            r matches Err(e) ==> resolve_spec(self.functions@, self.memories@, self.constants@, *op)
                == Err::<Seq<Operator>, PreprocessError>(e),
    {
        if !(op.tok_typ == TokenType::Word && op.typ == OpType::Instruction(InstructionType::Unresolved)) {
            out.push(op.duplicate());
            return Ok(());
        }
        let m = mangle(op.text.as_str());
        if let Some(i) = find_function(&self.functions, &m) {
            let f = &self.functions[i];
            if f.inline {
                match &f.tokens {
                    Some(t) => append_ops(out, t),
                    None => {
                        assert(old(out)@ + Seq::<Operator>::empty() =~= old(out)@);
                    },
                }
            } else {
                let mut t = op.duplicate();
                t.typ = OpType::Instruction(InstructionType::FnCall);
                t.text = f.name.clone();
                out.push(t);
            }
            return Ok(());
        }
        if let Some(i) = find_memory(&self.memories, &op.text) {
            let mut t = op.duplicate();
            t.addr = Some(self.memories[i].id);
            t.typ = OpType::Instruction(InstructionType::MemUse);
            out.push(t);
            return Ok(());
        }
        if let Some(i) = find_constant(&self.constants, &m) {
            let mut t = op.duplicate();
            t.typ = OpType::Instruction(InstructionType::ConstUse);
            t.text = self.constants[i].name.clone();
            out.push(t);
            return Ok(());
        }
        Err(PreprocessError::UnknownWord(copy_loc(&op.loc)))
    }

    /// One pass of word binding over `prog` with the current tables.
    pub fn expand_ops(&self, prog: &Vec<Operator>) -> (r: Result<Vec<Operator>, PreprocessError>)
        ensures
            r is Ok <==> expand_spec(self.functions@, self.memories@, self.constants@, prog@) is Ok,
            r matches Ok(v) ==> expand_spec(self.functions@, self.memories@, self.constants@, prog@)
                == Ok::<Seq<Operator>, PreprocessError>(v@),
            r matches Err(e) ==> expand_spec(self.functions@, self.memories@, self.constants@, prog@)
                == Err::<Seq<Operator>, PreprocessError>(e),
    {
        let ghost fs = self.functions@;
        let ghost ms = self.memories@;
        let ghost cs = self.constants@;
        let mut out: Vec<Operator> = Vec::new();
        let mut i: usize = 0;
        while i < prog.len()
            invariant
                fs == self.functions@,
                ms == self.memories@,
                cs == self.constants@,
                i <= prog@.len(),
                expand_spec(fs, ms, cs, prog@) == expand_from(fs, ms, cs, prog@, i as int, out@),
            decreases prog.len() - i,
        {
            let r = self.resolve_into(&prog[i], &mut out);
            if let Err(e) = r {
                return Err(e);
            }
            i = i + 1;
        }
        Ok(out)
    }

    /// Binds words of `prog` pass after pass until none is left unbound or
    /// the bound on passes is reached; tells whether the bound stopped it.
    pub fn expand_ops_fully(&self, prog: Vec<Operator>) -> (r: Result<
        (Vec<Operator>, bool),
        PreprocessError,
    >)
        ensures
            r is Ok <==> fixpoint_spec(
                self.functions@,
                self.memories@,
                self.constants@,
                prog@,
                0,
            ) is Ok,
            r matches Ok((v, capped)) ==> fixpoint_spec(
                self.functions@,
                self.memories@,
                self.constants@,
                prog@,
                0,
            ) == Ok::<(Seq<Operator>, bool), PreprocessError>((v@, capped)),
            r matches Err(e) ==> fixpoint_spec(
                self.functions@,
                self.memories@,
                self.constants@,
                prog@,
                0,
            ) == Err::<(Seq<Operator>, bool), PreprocessError>(e),
    {
        let ghost fs = self.functions@;
        let ghost ms = self.memories@;
        let ghost cs = self.constants@;
        let ghost goal = fixpoint_spec(fs, ms, cs, prog@, 0);
        let mut cur = prog;
        let mut times: usize = 0;
        while has_unresolved_exec(&cur)
            invariant
                fs == self.functions@,
                ms == self.memories@,
                cs == self.constants@,
                times <= EXPANSION_LIMIT,
                goal == fixpoint_spec(fs, ms, cs, prog@, 0),
                goal == fixpoint_spec(fs, ms, cs, cur@, times as nat),
            decreases EXPANSION_LIMIT - times,
        {
            if times >= EXPANSION_LIMIT {
                return Ok((cur, true));
            }
            match self.expand_ops(&cur) {
                Ok(v) => {
                    cur = v;
                },
                Err(e) => {
                    return Err(e);
                },
            }
            times = times + 1;
        }
        Ok((cur, false))
    }

    /// One pass of word binding over `program`.
    pub fn expand(&mut self) -> (r: Result<(), PreprocessError>)
        ensures
            r is Ok ==> *final(self) == (Preprocessor {
                program: final(self).program,
                ..*old(self)
            }),
            r is Err ==> *final(self) == *old(self),
            r is Ok <==> expand_spec(
                old(self).functions@,
                old(self).memories@,
                old(self).constants@,
                old(self).program@,
            ) is Ok,
            r is Ok ==> expand_spec(
                old(self).functions@,
                old(self).memories@,
                old(self).constants@,
                old(self).program@,
            ) == Ok::<Seq<Operator>, PreprocessError>(final(self).program@),
            r matches Err(e) ==> expand_spec(
                old(self).functions@,
                old(self).memories@,
                old(self).constants@,
                old(self).program@,
            ) == Err::<Seq<Operator>, PreprocessError>(e),
    {
        match self.expand_ops(&self.program) {
            Ok(v) => {
                self.program = v;
                Ok(())
            },
            Err(e) => Err(e),
        }
    }

    /// Reads the constant definitions of an inline body.
    fn inline_consts_exec(&self, body: &Vec<Operator>) -> (r: Result<
        (Vec<Operator>, Vec<(String, Loc, usize)>),
        PreprocessError,
    >)
        ensures
            ({
                let spec = inline_consts(
                    self.functions@,
                    self.memories@,
                    self.constants@,
                    body@,
                    0,
                    Seq::empty(),
                    Seq::empty(),
                );
                &&& r is Ok <==> spec is Ok
                &&& r matches Ok((b, l)) ==> spec == Ok::<
                    (Seq<Operator>, Seq<(Seq<char>, Loc, usize)>),
                    PreprocessError,
                >((b@, locals_view(l@)))
                &&& r matches Err(e) ==> spec == Err::<
                    (Seq<Operator>, Seq<(Seq<char>, Loc, usize)>),
                    PreprocessError,
                >(e)
            }),
    {
        let ghost goal = inline_consts(
            self.functions@,
            self.memories@,
            self.constants@,
            body@,
            0,
            Seq::empty(),
            Seq::empty(),
        );
        let mut out: Vec<Operator> = Vec::new();
        let mut locals: Vec<(String, Loc, usize)> = Vec::new();
        let n = body.len();
        let mut k: usize = 0;
        assert(locals_view(locals@) =~= Seq::<(Seq<char>, Loc, usize)>::empty());
        while k < n
            invariant
                n == body@.len(),
                goal == inline_consts(
                    self.functions@,
                    self.memories@,
                    self.constants@,
                    body@,
                    0,
                    Seq::empty(),
                    Seq::empty(),
                ),
                goal == inline_consts(
                    self.functions@,
                    self.memories@,
                    self.constants@,
                    body@,
                    k as int,
                    locals_view(locals@),
                    out@,
                ),
            decreases n - k,
        {
            let op = &body[k];
            if op.typ == OpType::Keyword(KeywordType::Constant) {
                if k + 1 >= n {
                    return Err(PreprocessError::MissingName(copy_loc(&op.loc)));
                }
                let name = &body[k + 1];
                let nm = match check_name(name) {
                    Err(e) => {
                        return Err(e);
                    },
                    Ok(nm) => nm,
                };
                if let Err(e) = self.name_available(name, &nm, KeywordType::Constant) {
                    return Err(e);
                }
                if let Some(i) = find_local(&locals, &nm) {
                    assert(locals_view(locals@)[i as int].1 == locals@[i as int].1);
                    return Err(
                        PreprocessError::Redefined {
                            kind: KeywordType::Constant,
                            loc: copy_loc(&name.loc),
                            first: copy_loc(&locals[i].1),
                        },
                    );
                }
                if k + 2 >= n || body[k + 2].tok_typ != TokenType::Int {
                    return Err(PreprocessError::ConstantNotInt(copy_loc(&op.loc)));
                }
                if k + 3 >= n || body[k + 3].typ != OpType::Keyword(KeywordType::End) {
                    return Err(PreprocessError::ConstantNotClosed(copy_loc(&op.loc)));
                }
                let ghost lv = locals_view(locals@);
                let entry = (nm, copy_loc(&name.loc), body[k + 2].value);
                locals.push(entry);
                assert(locals_view(locals@) =~= lv.push(
                    (nm@, body@[k + 1].loc, body@[k + 2].value),
                ));
                k = k + 4;
            } else {
                out.push(op.duplicate());
                k = k + 1;
            }
        }
        Ok((out, locals))
    }

    fn define_memory(&mut self) -> (r: Result<StepOutcome, PreprocessError>)
        requires
            old(self).wf(),
            old(self).pos < old(self).input@.len(),
            old(self).input@[old(self).pos as int].typ == OpType::Keyword(KeywordType::Memory),
        ensures
            r is Err <==> step_error(*old(self)) is Some,
            r matches Err(e) ==> step_error(*old(self)) == Some(e),
            r matches Ok(o) ==> step_effect(*old(self), *final(self), o) && final(self).wf(),
            r is Ok ==> final(self).pos > old(self).pos,
            r is Err ==> *final(self) == *old(self),
    {
        let p = self.pos;
        let n = self.input.len();
        if p + 1 >= n {
            return Err(PreprocessError::MissingName(copy_loc(&self.input[p].loc)));
        }
        if let Err(e) = self.is_word_available(&self.input[p + 1], KeywordType::Memory) {
            return Err(e);
        }
        let e = match find_block_end(&self.input, p + 2) {
            None => {
                return Err(PreprocessError::Unterminated(copy_loc(&self.input[p].loc)));
            },
            Some(e) => e,
        };
        let body = slice_ops(&self.input, p + 2, e);
        let vals = match crate::precompiler::precompile(&body) {
            Err(pe) => {
                return Err(PreprocessError::MemorySize(pe));
            },
            Ok(v) => v,
        };
        if vals.len() != 1 {
            return Err(PreprocessError::MemoryNotOneValue(copy_loc(&self.input[p].loc)));
        }
        let ghost a = *self;
        let id = self.memories.len();
        let mut op = self.input[p].duplicate();
        op.value = vals[0];
        op.addr = Some(id);
        let name = self.input[p + 1].text.clone();
        let mloc = copy_loc(&self.input[p].loc);
        proof {
            let w = a.input@[p + 1];
            let m = Memory { loc: mloc, name: name, id };
            let f = Function { loc: mloc, name: name, inline: false, tokens: None };
            let c = Constant { loc: mloc, name: name };
            lemma_definition_keeps_wf(
                a.functions@,
                a.memories@,
                a.constants@,
                w,
                w.text@,
                KeywordType::Memory,
                f,
                m,
                c,
            );
        }
        self.program.push(op);
        self.memories.push(Memory { loc: mloc, name, id });
        self.pos = e + 1;
        Ok(StepOutcome::Continue)
    }

    fn define_function(&mut self) -> (r: Result<StepOutcome, PreprocessError>)
        requires
            old(self).wf(),
            old(self).pos < old(self).input@.len(),
            old(self).input@[old(self).pos as int].typ == OpType::Keyword(KeywordType::Function),
        ensures
            r is Err <==> step_error(*old(self)) is Some,
            r matches Err(e) ==> step_error(*old(self)) == Some(e),
            r matches Ok(o) ==> step_effect(*old(self), *final(self), o) && final(self).wf(),
            r is Ok ==> final(self).pos > old(self).pos,
            r is Err ==> *final(self) == *old(self),
    {
        let p = self.pos;
        let n = self.input.len();
        if p + 1 >= n {
            return Err(PreprocessError::MissingName(copy_loc(&self.input[p].loc)));
        }
        let nm = match check_name(&self.input[p + 1]) {
            Err(e) => {
                return Err(e);
            },
            Ok(nm) => nm,
        };
        if let Err(e) = self.name_available(&self.input[p + 1], &nm, KeywordType::Function) {
            return Err(e);
        }
        let ghost a = *self;
        let name_loc = copy_loc(&self.input[p + 1].loc);
        proof {
            let w = a.input@[p + 1];
            let m = Memory { loc: name_loc, name: nm, id: 0 };
            let f = Function { loc: name_loc, name: nm, inline: false, tokens: None };
            let c = Constant { loc: name_loc, name: nm };
            lemma_definition_keeps_wf(
                a.functions@,
                a.memories@,
                a.constants@,
                w,
                nm@,
                KeywordType::Function,
                f,
                m,
                c,
            );
            let f2 = Function { loc: name_loc, name: nm, inline: true, tokens: None };
            lemma_definition_keeps_wf(
                a.functions@,
                a.memories@,
                a.constants@,
                w,
                nm@,
                KeywordType::Function,
                f2,
                m,
                c,
            );
        }
        if self.inline_next {
            let (body, end) = match capture_inline_body(&self.input, p + 2, &self.input[p].loc) {
                Err(e) => {
                    return Err(e);
                },
                Ok(x) => x,
            };
            let (b1, locals) = match self.inline_consts_exec(&body) {
                Err(e) => {
                    return Err(e);
                },
                Ok(x) => x,
            };
            let bound = bind_locals(&b1, &locals);
            let (b2, _capped) = match self.expand_ops_fully(bound) {
                Err(e) => {
                    return Err(e);
                },
                Ok(x) => x,
            };
            let f = Function { loc: name_loc, name: nm, inline: true, tokens: Some(b2) };
            proof {
                let w = a.input@[p + 1];
                let m = Memory { loc: name_loc, name: f.name, id: 0 };
                let c = Constant { loc: name_loc, name: f.name };
                lemma_definition_keeps_wf(
                    a.functions@,
                    a.memories@,
                    a.constants@,
                    w,
                    f.name@,
                    KeywordType::Function,
                    f,
                    m,
                    c,
                );
            }
            self.functions.push(f);
            self.pos = end + 1;
        } else {
            self.functions.push(
                Function { loc: name_loc, name: nm.clone(), inline: false, tokens: None },
            );
            let mut d = self.input[p].duplicate();
            d.typ = OpType::Keyword(KeywordType::FunctionDef);
            d.text = nm;
            self.program.push(d);
            self.pos = p + 2;
        }
        self.inline_next = false;
        Ok(StepOutcome::Continue)
    }

    fn define_constant(&mut self) -> (r: Result<StepOutcome, PreprocessError>)
        requires
            old(self).wf(),
            old(self).pos < old(self).input@.len(),
            old(self).input@[old(self).pos as int].typ == OpType::Keyword(KeywordType::Constant),
        ensures
            r is Err <==> step_error(*old(self)) is Some,
            r matches Err(e) ==> step_error(*old(self)) == Some(e),
            r matches Ok(o) ==> step_effect(*old(self), *final(self), o) && final(self).wf(),
            r is Ok ==> final(self).pos > old(self).pos,
            r is Err ==> *final(self) == *old(self),
    {
        let p = self.pos;
        let n = self.input.len();
        if p + 1 >= n {
            return Err(PreprocessError::MissingName(copy_loc(&self.input[p].loc)));
        }
        let nm = match check_name(&self.input[p + 1]) {
            Err(e) => {
                return Err(e);
            },
            Ok(nm) => nm,
        };
        if let Err(e) = self.name_available(&self.input[p + 1], &nm, KeywordType::Constant) {
            return Err(e);
        }
        if p + 2 >= n || self.input[p + 2].tok_typ != TokenType::Int {
            return Err(PreprocessError::ConstantNotInt(copy_loc(&self.input[p].loc)));
        }
        if p + 3 >= n || self.input[p + 3].typ != OpType::Keyword(KeywordType::End) {
            return Err(PreprocessError::ConstantNotClosed(copy_loc(&self.input[p].loc)));
        }
        let ghost a = *self;
        let name_loc = copy_loc(&self.input[p + 1].loc);
        let c = Constant { loc: name_loc, name: nm.clone() };
        proof {
            let w = a.input@[p + 1];
            let m = Memory { loc: name_loc, name: nm, id: 0 };
            let f = Function { loc: name_loc, name: nm, inline: false, tokens: None };
            lemma_definition_keeps_wf(
                a.functions@,
                a.memories@,
                a.constants@,
                w,
                nm@,
                KeywordType::Constant,
                f,
                m,
                c,
            );
        }
        self.constants.push(c);
        let mut d = self.input[p].duplicate();
        d.typ = OpType::Keyword(KeywordType::ConstantDef);
        d.text = nm;
        d.value = self.input[p + 2].value;
        self.program.push(d);
        self.pos = p + 4;
        Ok(StepOutcome::Continue)
    }

    /// Reads the operator at `pos`: a definition, a file directive, an
    /// `inline` mark, or anything else, which is copied.
    pub fn step(&mut self) -> (r: Result<StepOutcome, PreprocessError>)
        requires
            old(self).wf(),
            old(self).pos < old(self).input@.len(),
        ensures
            r is Err <==> step_error(*old(self)) is Some,
            r matches Err(e) ==> step_error(*old(self)) == Some(e),
            r matches Ok(o) ==> step_effect(*old(self), *final(self), o) && final(self).wf(),
            r is Ok ==> final(self).pos > old(self).pos,
            r is Err ==> *final(self) == *old(self),
    {
        let p = self.pos;
        let n = self.input.len();
        let typ = self.input[p].typ;
        match typ {
            OpType::Keyword(KeywordType::Include) => {
                if p + 1 >= n {
                    return Err(PreprocessError::MissingPath(copy_loc(&self.input[p].loc)));
                }
                let path = &self.input[p + 1];
                if path.tok_typ != TokenType::String {
                    return Err(PreprocessError::BadPath(copy_loc(&path.loc)));
                }
                let s = path.text.as_str();
                let relative = s.unicode_len() > 0 && s.get_char(0) == '.';
                let req = FileRequest { path: path.text.clone(), loc: copy_loc(&path.loc), relative };
                self.pos = p + 2;
                Ok(StepOutcome::NeedFile(req))
            },
            OpType::Keyword(KeywordType::Memory) => self.define_memory(),
            OpType::Keyword(KeywordType::Function) => self.define_function(),
            OpType::Keyword(KeywordType::Constant) => self.define_constant(),
            OpType::Keyword(KeywordType::Inline) => {
                if self.inline_next {
                    return Err(PreprocessError::AlreadyInline(copy_loc(&self.input[p].loc)));
                }
                self.inline_next = true;
                self.pos = p + 1;
                Ok(StepOutcome::Continue)
            },
            _ => {
                let op = self.input[p].duplicate();
                self.program.push(op);
                self.pos = p + 1;
                Ok(StepOutcome::Continue)
            },
        }
    }

    /// Splices the operators of a requested file in where its directive
    /// stood, before the operators still to read.
    pub fn supply_file(&mut self, ops: Vec<Operator>)
        requires
            old(self).wf(),
        ensures
            final(self).wf(),
            final(self).input@ == ops@ + old(self).input@.subrange(
                old(self).pos as int,
                old(self).input@.len() as int,
            ),
            final(self).pos == 0,
            final(self).program == old(self).program,
            final(self).functions == old(self).functions,
            final(self).memories == old(self).memories,
            final(self).constants == old(self).constants,
            final(self).inline_next == old(self).inline_next,
    {
        let rest = slice_ops(&self.input, self.pos, self.input.len());
        let mut joined = ops;
        append_ops(&mut joined, &rest);
        self.input = joined;
        self.pos = 0;
    }

    /// Runs steps until the input is read, then binds every word; stops
    /// early where a file is needed or a step fails.
    pub fn preprocess(&mut self) -> (r: Result<Progress, PreprocessError>)
        requires
            old(self).wf(),
        ensures
            final(self).wf(),
            exists|t: Seq<Preprocessor>|
                #![trigger runs(t)]
                runs(t) && t.len() >= 1 && t[0] == *old(self) && run_ends(t.last(), *final(self), r),
    {
        let ghost mut trace = seq![*self];
        loop
            invariant
                self.wf(),
                trace.len() >= 1,
                trace[0] == *old(self),
                trace.last() == *self,
                runs(trace),
            decreases self.input@.len() - self.pos,
        {
            if self.pos >= self.input.len() {
                let prog = slice_ops(&self.program, 0, self.program.len());
                assert(prog@ =~= self.program@);
                match self.expand_ops_fully(prog) {
                    Ok((v, capped)) => {
                        self.program = v;
                        let r = Ok(Progress::Finished { capped });
                        assert(run_ends(trace.last(), *self, r));
                        return r;
                    },
                    Err(e) => {
                        let r = Err(e);
                        assert(run_ends(trace.last(), *self, r));
                        return r;
                    },
                }
            }
            match self.step() {
                Err(e) => {
                    let r = Err(e);
                    assert(run_ends(trace.last(), *self, r));
                    return r;
                },
                Ok(StepOutcome::Continue) => {
                    proof {
                        let t2 = trace.push(*self);
                        assert forall|k: int| 0 <= k < t2.len() - 1 implies #[trigger] ran(
                            t2[k],
                            t2[k + 1],
                        ) by {
                            if k < trace.len() - 1 {
                                assert(ran(trace[k], trace[k + 1]));
                            }
                        }
                        trace = t2;
                    }
                },
                Ok(StepOutcome::NeedFile(req)) => {
                    let r = Ok(Progress::NeedFile(req));
                    assert(run_ends(trace.last(), *self, r));
                    return r;
                },
            }
        }
    }

    /// The operators written so far.
    pub fn get_ops(&mut self) -> (r: Vec<Operator>)
        ensures
            r@ == old(self).program@,
            *final(self) == *old(self),
    {
        let r = slice_ops(&self.program, 0, self.program.len());
        assert(r@ =~= self.program@);
        r
    }

    pub fn set_functions(&mut self, f: Vec<Function>)
        ensures
            *final(self) == (Preprocessor { functions: f, ..*old(self) }),
    {
        self.functions = f;
    }

    pub fn set_constants(&mut self, f: Vec<Constant>)
        ensures
            *final(self) == (Preprocessor { constants: f, ..*old(self) }),
    {
        self.constants = f;
    }

    pub fn set_memories(&mut self, f: Vec<Memory>)
        ensures
            *final(self) == (Preprocessor { memories: f, ..*old(self) }),
    {
        self.memories = f;
    }

    /// A copy of the function table.
    pub fn get_functions(&mut self) -> (r: Vec<Function>)
        ensures
            *final(self) == *old(self),
            r@.len() == old(self).functions@.len(),
            forall|i: int|
                0 <= i < r@.len() ==> crate::tables::same_function(
                    #[trigger] r@[i],
                    old(self).functions@[i],
                ),
    {
        let mut out: Vec<Function> = Vec::new();
        let mut i: usize = 0;
        while i < self.functions.len()
            invariant
                i <= self.functions@.len(),
                out@.len() == i,
                forall|k: int|
                    0 <= k < i ==> crate::tables::same_function(#[trigger] out@[k], self.functions@[k]),
            decreases self.functions.len() - i,
        {
            out.push(self.functions[i].duplicate());
            i = i + 1;
        }
        out
    }

    /// A copy of the constant table.
    pub fn get_constants(&mut self) -> (r: Vec<Constant>)
        ensures
            *final(self) == *old(self),
            r@ == old(self).constants@,
    {
        let mut out: Vec<Constant> = Vec::new();
        let mut i: usize = 0;
        while i < self.constants.len()
            invariant
                i <= self.constants@.len(),
                out@ == self.constants@.subrange(0, i as int),
            decreases self.constants.len() - i,
        {
            out.push(self.constants[i].duplicate());
            assert(self.constants@.subrange(0, i + 1) =~= self.constants@.subrange(0, i as int).push(self.constants@[i as int]));
            i = i + 1;
        }
        assert(self.constants@.subrange(0, self.constants@.len() as int) =~= self.constants@);
        out
    }

    /// A copy of the memory table.
    pub fn get_memories(&mut self) -> (r: Vec<Memory>)
        ensures
            *final(self) == *old(self),
            r@ == old(self).memories@,
    {
        let mut out: Vec<Memory> = Vec::new();
        let mut i: usize = 0;
        while i < self.memories.len()
            invariant
                i <= self.memories@.len(),
                out@ == self.memories@.subrange(0, i as int),
            decreases self.memories.len() - i,
        {
            out.push(self.memories[i].duplicate());
            assert(self.memories@.subrange(0, i + 1) =~= self.memories@.subrange(0, i as int).push(self.memories@[i as int]));
            i = i + 1;
        }
        assert(self.memories@.subrange(0, self.memories@.len() as int) =~= self.memories@);
        out
    }
}

} // verus!
