use vstd::prelude::*;
use crate::args::Args;
use crate::constants::{InstructionType, KeywordType, Loc, OpType, Operator, Token, TokenType};
use crate::crossref::{cross_ref, xref_spec, CrossRefError};
use crate::preprocessor::{
    run_ends, runs, FileRequest, PreprocessError, Preprocessor, Progress,
};
use crate::text::{digits_value, is_uint_literal, literal_digits, parse_uint, str_eq};

verus! {

/// The built-in meaning of a word: a number literal, a builtin instruction
/// or keyword, or `Unresolved` for anything else.
pub open spec fn word_op(s: Seq<char>) -> OpType {
    if is_uint_literal(s) {
        OpType::Instruction(InstructionType::PushInt)
    } else if s == "_dbg_print"@ {
        OpType::Instruction(InstructionType::Print)
    } else if s == "dup"@ {
        OpType::Instruction(InstructionType::Dup)
    } else if s == "drop"@ {
        OpType::Instruction(InstructionType::Drop)
    } else if s == "rot"@ {
        OpType::Instruction(InstructionType::Rot)
    } else if s == "over"@ {
        OpType::Instruction(InstructionType::Over)
    } else if s == "swap"@ {
        OpType::Instruction(InstructionType::Swap)
    } else if s == "+"@ {
        OpType::Instruction(InstructionType::Plus)
    } else if s == "-"@ {
        OpType::Instruction(InstructionType::Minus)
    } else if s == "="@ {
        OpType::Instruction(InstructionType::Equals)
    } else if s == "!="@ {
        OpType::Instruction(InstructionType::NotEquals)
    } else if s == ">"@ {
        OpType::Instruction(InstructionType::Gt)
    } else if s == "<"@ {
        OpType::Instruction(InstructionType::Lt)
    } else if s == ">="@ {
        OpType::Instruction(InstructionType::Ge)
    } else if s == "<="@ {
        OpType::Instruction(InstructionType::Le)
    } else if s == "band"@ {
        OpType::Instruction(InstructionType::Band)
    } else if s == "bor"@ {
        OpType::Instruction(InstructionType::Bor)
    } else if s == "shr"@ {
        OpType::Instruction(InstructionType::Shr)
    } else if s == "shl"@ {
        OpType::Instruction(InstructionType::Shl)
    } else if s == "divmod"@ {
        OpType::Instruction(InstructionType::DivMod)
    } else if s == "*"@ {
        OpType::Instruction(InstructionType::Mul)
    } else if s == "load8"@ {
        OpType::Instruction(InstructionType::Load8)
    } else if s == "store8"@ {
        OpType::Instruction(InstructionType::Store8)
    } else if s == "load32"@ {
        OpType::Instruction(InstructionType::Load32)
    } else if s == "store32"@ {
        OpType::Instruction(InstructionType::Store32)
    } else if s == "load64"@ {
        OpType::Instruction(InstructionType::Load64)
    } else if s == "store64"@ {
        OpType::Instruction(InstructionType::Store64)
    } else if s == "syscall0"@ {
        OpType::Instruction(InstructionType::Syscall0)
    } else if s == "syscall1"@ {
        OpType::Instruction(InstructionType::Syscall1)
    } else if s == "syscall2"@ {
        OpType::Instruction(InstructionType::Syscall2)
    } else if s == "syscall3"@ {
        OpType::Instruction(InstructionType::Syscall3)
    } else if s == "syscall4"@ {
        OpType::Instruction(InstructionType::Syscall4)
    } else if s == "syscall5"@ {
        OpType::Instruction(InstructionType::Syscall5)
    } else if s == "syscall6"@ {
        OpType::Instruction(InstructionType::Syscall6)
    } else if s == "cast(bool)"@ {
        OpType::Instruction(InstructionType::CastBool)
    } else if s == "cast(ptr)"@ {
        OpType::Instruction(InstructionType::CastPtr)
    } else if s == "cast(int)"@ {
        OpType::Instruction(InstructionType::CastInt)
    } else if s == "cast(void)"@ {
        OpType::Instruction(InstructionType::CastVoid)
    } else if s == "if"@ {
        OpType::Keyword(KeywordType::If)
    } else if s == "else"@ {
        OpType::Keyword(KeywordType::Else)
    } else if s == "end"@ {
        OpType::Keyword(KeywordType::End)
    } else if s == "while"@ {
        OpType::Keyword(KeywordType::While)
    } else if s == "do"@ {
        OpType::Keyword(KeywordType::Do)
    } else if s == "include"@ {
        OpType::Keyword(KeywordType::Include)
    } else if s == "memory"@ {
        OpType::Keyword(KeywordType::Memory)
    } else if s == "const"@ {
        OpType::Keyword(KeywordType::Constant)
    } else if s == "fn"@ {
        OpType::Keyword(KeywordType::Function)
    } else if s == "then"@ {
        OpType::Keyword(KeywordType::FunctionThen)
    } else if s == "done"@ {
        OpType::Keyword(KeywordType::FunctionDone)
    } else if s == "inline"@ {
        OpType::Keyword(KeywordType::Inline)
    } else if s == "export"@ {
        OpType::Keyword(KeywordType::Export)
    } else if s == "return"@ {
        OpType::Instruction(InstructionType::Return)
    } else if s == "returns"@ {
        OpType::Instruction(InstructionType::Returns)
    } else if s == "bool"@ {
        OpType::Instruction(InstructionType::TypeBool)
    } else if s == "int"@ {
        OpType::Instruction(InstructionType::TypeInt)
    } else if s == "ptr"@ {
        OpType::Instruction(InstructionType::TypePtr)
    } else if s == "void"@ {
        OpType::Instruction(InstructionType::TypeVoid)
    } else if s == "any"@ {
        OpType::Instruction(InstructionType::TypeAny)
    } else if s == "with"@ {
        OpType::Instruction(InstructionType::With)
    } else {
        OpType::Instruction(InstructionType::Unresolved)
    }
}

/// Whether `s` names a builtin: a number, instruction or keyword.
pub open spec fn is_builtin_word(s: Seq<char>) -> bool {
    word_op(s) != OpType::Instruction(InstructionType::Unresolved)
}

/// Resolves a word against the builtin table.
pub fn lookup_word(s: &str, _pos: &Loc) -> (r: OpType)
    ensures
        r == word_op(s@),
{
    if parse_uint(s).is_some() {
        OpType::Instruction(InstructionType::PushInt)
    } else if str_eq(s, "_dbg_print") {
        OpType::Instruction(InstructionType::Print)
    } else if str_eq(s, "dup") {
        OpType::Instruction(InstructionType::Dup)
    } else if str_eq(s, "drop") {
        OpType::Instruction(InstructionType::Drop)
    } else if str_eq(s, "rot") {
        OpType::Instruction(InstructionType::Rot)
    } else if str_eq(s, "over") {
        OpType::Instruction(InstructionType::Over)
    } else if str_eq(s, "swap") {
        OpType::Instruction(InstructionType::Swap)
    } else if str_eq(s, "+") {
        OpType::Instruction(InstructionType::Plus)
    } else if str_eq(s, "-") {
        OpType::Instruction(InstructionType::Minus)
    } else if str_eq(s, "=") {
        OpType::Instruction(InstructionType::Equals)
    } else if str_eq(s, "!=") {
        OpType::Instruction(InstructionType::NotEquals)
    } else if str_eq(s, ">") {
        OpType::Instruction(InstructionType::Gt)
    } else if str_eq(s, "<") {
        OpType::Instruction(InstructionType::Lt)
    } else if str_eq(s, ">=") {
        OpType::Instruction(InstructionType::Ge)
    } else if str_eq(s, "<=") {
        OpType::Instruction(InstructionType::Le)
    } else if str_eq(s, "band") {
        OpType::Instruction(InstructionType::Band)
    } else if str_eq(s, "bor") {
        OpType::Instruction(InstructionType::Bor)
    } else if str_eq(s, "shr") {
        OpType::Instruction(InstructionType::Shr)
    } else if str_eq(s, "shl") {
        OpType::Instruction(InstructionType::Shl)
    } else if str_eq(s, "divmod") {
        OpType::Instruction(InstructionType::DivMod)
    } else if str_eq(s, "*") {
        OpType::Instruction(InstructionType::Mul)
    } else if str_eq(s, "load8") {
        OpType::Instruction(InstructionType::Load8)
    } else if str_eq(s, "store8") {
        OpType::Instruction(InstructionType::Store8)
    } else if str_eq(s, "load32") {
        OpType::Instruction(InstructionType::Load32)
    } else if str_eq(s, "store32") {
        OpType::Instruction(InstructionType::Store32)
    } else if str_eq(s, "load64") {
        OpType::Instruction(InstructionType::Load64)
    } else if str_eq(s, "store64") {
        OpType::Instruction(InstructionType::Store64)
    } else if str_eq(s, "syscall0") {
        OpType::Instruction(InstructionType::Syscall0)
    } else if str_eq(s, "syscall1") {
        OpType::Instruction(InstructionType::Syscall1)
    } else if str_eq(s, "syscall2") {
        OpType::Instruction(InstructionType::Syscall2)
    } else if str_eq(s, "syscall3") {
        OpType::Instruction(InstructionType::Syscall3)
    } else if str_eq(s, "syscall4") {
        OpType::Instruction(InstructionType::Syscall4)
    } else if str_eq(s, "syscall5") {
        OpType::Instruction(InstructionType::Syscall5)
    } else if str_eq(s, "syscall6") {
        OpType::Instruction(InstructionType::Syscall6)
    } else if str_eq(s, "cast(bool)") {
        OpType::Instruction(InstructionType::CastBool)
    } else if str_eq(s, "cast(ptr)") {
        OpType::Instruction(InstructionType::CastPtr)
    } else if str_eq(s, "cast(int)") {
        OpType::Instruction(InstructionType::CastInt)
    } else if str_eq(s, "cast(void)") {
        OpType::Instruction(InstructionType::CastVoid)
    } else if str_eq(s, "if") {
        OpType::Keyword(KeywordType::If)
    } else if str_eq(s, "else") {
        OpType::Keyword(KeywordType::Else)
    } else if str_eq(s, "end") {
        OpType::Keyword(KeywordType::End)
    } else if str_eq(s, "while") {
        OpType::Keyword(KeywordType::While)
    } else if str_eq(s, "do") {
        OpType::Keyword(KeywordType::Do)
    } else if str_eq(s, "include") {
        OpType::Keyword(KeywordType::Include)
    } else if str_eq(s, "memory") {
        OpType::Keyword(KeywordType::Memory)
    } else if str_eq(s, "const") {
        OpType::Keyword(KeywordType::Constant)
    } else if str_eq(s, "fn") {
        OpType::Keyword(KeywordType::Function)
    } else if str_eq(s, "then") {
        OpType::Keyword(KeywordType::FunctionThen)
    } else if str_eq(s, "done") {
        OpType::Keyword(KeywordType::FunctionDone)
    } else if str_eq(s, "inline") {
        OpType::Keyword(KeywordType::Inline)
    } else if str_eq(s, "export") {
        OpType::Keyword(KeywordType::Export)
    } else if str_eq(s, "return") {
        OpType::Instruction(InstructionType::Return)
    } else if str_eq(s, "returns") {
        OpType::Instruction(InstructionType::Returns)
    } else if str_eq(s, "bool") {
        OpType::Instruction(InstructionType::TypeBool)
    } else if str_eq(s, "int") {
        OpType::Instruction(InstructionType::TypeInt)
    } else if str_eq(s, "ptr") {
        OpType::Instruction(InstructionType::TypePtr)
    } else if str_eq(s, "void") {
        OpType::Instruction(InstructionType::TypeVoid)
    } else if str_eq(s, "any") {
        OpType::Instruction(InstructionType::TypeAny)
    } else if str_eq(s, "with") {
        OpType::Instruction(InstructionType::With)
    } else {
        OpType::Instruction(InstructionType::Unresolved)
    }
}

/// Why tokens could not be turned into operators.
#[derive(Debug, Clone)]
pub enum ParseError {
    /// An integer token that is not an unsigned machine word.
    BadInt(Loc),
    /// A character literal that is not exactly one ASCII character.
    BadChar(Loc),
}

/// Why a source could not be turned into a cross-referenced stream.
#[derive(Debug, Clone)]
pub enum CompileError {
    Parse(ParseError),
    Preprocess(PreprocessError),
    CrossRef(CrossRefError),
}

pub open spec fn token_loc(t: Token) -> Loc {
    Loc { file: t.file, line: t.line, col: t.col }
}

/// Why a token cannot become an operator, if it cannot.
pub open spec fn token_error(t: Token) -> Option<ParseError> {
    match t.typ {
        TokenType::Int => if is_uint_literal(t.text@) {
            None
        } else {
            Some(ParseError::BadInt(token_loc(t)))
        },
        TokenType::Char => if t.text@.len() == 1 && (t.text@[0] as u32) < 128 {
            None
        } else {
            Some(ParseError::BadChar(token_loc(t)))
        },
        _ => None,
    }
}

/// `o` is the operator token `t` becomes: a word is resolved against the
/// builtins (unless already a memory reference) and keeps its text, value
/// and address; an integer pushes its value; a string pushes its text; a
/// character pushes its code.
pub open spec fn converts(t: Token, o: Operator) -> bool {
    &&& o.tok_typ == t.typ
    &&& o.loc == token_loc(t)
    &&& o.jmp == 0
    &&& match t.typ {
        TokenType::Word => {
            &&& o.typ == (if t.op_typ == OpType::Instruction(InstructionType::MemUse) {
                OpType::Instruction(InstructionType::MemUse)
            } else {
                word_op(t.text@)
            })
            &&& o.value == (match t.value {
                Some(v) => v,
                None => 0usize,
            })
            &&& o.text == t.text
            &&& o.addr == Some(
                match t.addr {
                    Some(a) => a,
                    None => 0usize,
                },
            )
        },
        TokenType::Int => {
            &&& o.typ == OpType::Instruction(InstructionType::PushInt)
            &&& o.value as nat == digits_value(literal_digits(t.text@))
            &&& o.text@.len() == 0
            &&& o.addr is None
        },
        TokenType::String => {
            &&& o.typ == OpType::Instruction(InstructionType::PushStr)
            &&& o.value == 0
            &&& o.text == t.text
            &&& o.addr is None
        },
        TokenType::Char => {
            &&& o.typ == OpType::Instruction(InstructionType::PushInt)
            &&& o.value == t.text@[0] as usize
            &&& o.text@.len() == 0
            &&& o.addr is None
        },
    }
}

/// The tokens that become operators: those with text.
pub open spec fn kept_tokens(ts: Seq<Token>) -> Seq<Token> {
    ts.filter(|t: Token| t.text@.len() > 0)
}

/// Turns one token into its operator.
pub fn token_to_operator(t: &Token) -> (r: Result<Operator, ParseError>)
    ensures
        r is Err <==> token_error(*t) is Some,
        r matches Err(e) ==> token_error(*t) == Some(e),
        r matches Ok(o) ==> converts(*t, o),
{
    let loc = t.loc();
    match t.typ {
        TokenType::Word => {
            let word_type = if t.op_typ == OpType::Instruction(InstructionType::MemUse) {
                OpType::Instruction(InstructionType::MemUse)
            } else {
                lookup_word(t.text.as_str(), &loc)
            };
            let value = match t.value {
                Some(v) => v,
                None => 0,
            };
            let addr = match t.addr {
                Some(a) => a,
                None => 0,
            };
            Ok(
                Operator::new(word_type, t.typ, value, t.text.clone(), loc.file, loc.line, loc.col).set_addr(addr),
            )
        },
        TokenType::Int => match parse_uint(t.text.as_str()) {
            Some(v) => Ok(
                Operator::new(
                    OpType::Instruction(InstructionType::PushInt),
                    t.typ,
                    v,
                    String::new(),
                    loc.file,
                    loc.line,
                    loc.col,
                ),
            ),
            None => Err(ParseError::BadInt(loc)),
        },
        TokenType::String => Ok(
            Operator::new(
                OpType::Instruction(InstructionType::PushStr),
                t.typ,
                0,
                t.text.clone(),
                loc.file,
                loc.line,
                loc.col,
            ),
        ),
        TokenType::Char => {
            let s = t.text.as_str();
            if s.unicode_len() != 1 || (s.get_char(0) as u32) >= 128 {
                return Err(ParseError::BadChar(loc));
            }
            let c = s.get_char(0);
            Ok(
                Operator::new(
                    OpType::Instruction(InstructionType::PushInt),
                    t.typ,
                    c as usize,
                    String::new(),
                    loc.file,
                    loc.line,
                    loc.col,
                ),
            )
        },
    }
}

/// Turns tokens into operators, skipping those without text; fails at the
/// first token that cannot become one.
pub fn to_operators(tokens: &Vec<Token>) -> (r: Result<Vec<Operator>, ParseError>)
    ensures
        r matches Ok(v) ==> v@.len() == kept_tokens(tokens@).len() && forall|i: int|
            0 <= i < v@.len() ==> converts(kept_tokens(tokens@)[i], #[trigger] v@[i]),
        r is Ok <==> forall|i: int|
            0 <= i < tokens@.len() ==> #[trigger] token_error(tokens@[i]) is None || tokens@[i].text@.len() == 0,
        r matches Err(e) ==> exists|i: int|
            0 <= i < tokens@.len() && tokens@[i].text@.len() > 0 && #[trigger] token_error(tokens@[i]) == Some(e)
                && forall|j: int|
                0 <= j < i ==> token_error(tokens@[j]) is None || tokens@[j].text@.len() == 0,
{
    let mut out: Vec<Operator> = Vec::new();
    let mut i: usize = 0;
    while i < tokens.len()
        invariant
            i <= tokens@.len(),
            out@.len() == kept_tokens(tokens@.subrange(0, i as int)).len(),
            forall|k: int|
                0 <= k < out@.len() ==> converts(kept_tokens(tokens@.subrange(0, i as int))[k], #[trigger] out@[k]),
            forall|j: int|
                0 <= j < i ==> token_error(tokens@[j]) is None || tokens@[j].text@.len() == 0,
        decreases tokens.len() - i,
    {
        let ghost pre = tokens@.subrange(0, i as int);
        proof {
            reveal(Seq::filter);
        }
        assert(tokens@.subrange(0, i + 1).drop_last() =~= pre);
        assert(tokens@.subrange(0, i + 1).last() == tokens@[i as int]);
        if tokens[i].text.as_str().unicode_len() > 0 {
            match token_to_operator(&tokens[i]) {
                Ok(o) => {
                    out.push(o);
                },
                Err(e) => {
                    return Err(e);
                },
            }
            assert(kept_tokens(tokens@.subrange(0, i + 1)) =~= kept_tokens(pre).push(tokens@[i as int]));
        } else {
            assert(kept_tokens(tokens@.subrange(0, i + 1)) =~= kept_tokens(pre));
        }
        i = i + 1;
    }
    assert(tokens@.subrange(0, tokens@.len() as int) =~= tokens@);
    Ok(out)
}

/// What one call of `Parser::parse` gives.
#[derive(Debug, Clone)]
pub enum ParseStep {
    /// The whole source, preprocessed and cross-referenced.
    Done(Vec<Operator>),
    /// A file is needed: lex it and hand its tokens to `feed_file`.
    NeedFile(FileRequest),
}

/// Turns tokens into a resolved, cross-referenced operator stream.
pub struct Parser {
    /// Tokens not yet handed to the preprocessor.
    pub tokens: Vec<Token>,
    pub preprocessor: Preprocessor,
}

impl Parser {
    pub fn new(file: Vec<Token>, args: &Args, p: Option<Preprocessor>) -> (r: Self)
        requires
            p matches Some(q) ==> q.wf(),
        ensures
            r.tokens == file,
            r.preprocessor.wf(),
            p matches Some(q) ==> r.preprocessor == q,
            p is None ==> r.preprocessor.input@.len() == 0 && r.preprocessor.program@.len() == 0
                && r.preprocessor.functions@.len() == 0 && r.preprocessor.memories@.len() == 0
                && r.preprocessor.constants@.len() == 0 && !r.preprocessor.inline_next,
    {
        let pre = match p {
            Some(q) => q,
            None => Preprocessor::new(Vec::new(), args),
        };
        Parser { tokens: file, preprocessor: pre }
    }

    /// Hands the tokens of a requested file to the next `parse`.
    pub fn feed_file(&mut self, tokens: Vec<Token>)
        ensures
            final(self).tokens == tokens,
            final(self).preprocessor == old(self).preprocessor,
    {
        self.tokens = tokens;
    }

    /// Turns the pending tokens into operators, splices them in where the
    /// preprocessor stands, and preprocesses on: gives the cross-referenced
    /// stream once all is read, or the file needed first.
    pub fn parse(&mut self) -> (r: Result<ParseStep, CompileError>)
        requires
            old(self).preprocessor.wf(),
        ensures
            final(self).preprocessor.wf(),
            (exists|i: int|
                0 <= i < old(self).tokens@.len() && old(self).tokens@[i].text@.len() > 0
                    && #[trigger] token_error(old(self).tokens@[i]) is Some) ==> (r matches Err(
                CompileError::Parse(_),
            )),
            r matches Err(CompileError::Parse(e)) ==> exists|i: int|
                0 <= i < old(self).tokens@.len() && old(self).tokens@[i].text@.len() > 0
                    && #[trigger] token_error(old(self).tokens@[i]) == Some(e),
            !(r matches Err(CompileError::Parse(_))) ==> ({
                let a = old(self).preprocessor;
                let kept = kept_tokens(old(self).tokens@);
                exists|t: Seq<Preprocessor>|
                    #![trigger runs(t)]
                    {
                        &&& runs(t)
                        &&& t.len() >= 1
                        &&& t[0].input@.len() == kept.len() + a.input@.len() - a.pos
                        &&& (forall|i: int| 0 <= i < kept.len() ==> converts(kept[i], #[trigger] t[0].input@[i]))
                        &&& t[0].input@.subrange(kept.len() as int, t[0].input@.len() as int) == a.input@.subrange(a.pos as int, a.input@.len() as int)
                        &&& t[0].pos == 0
                        &&& t[0].program == a.program && t[0].functions == a.functions
                        &&& t[0].memories == a.memories && t[0].constants == a.constants
                        &&& t[0].inline_next == a.inline_next
                        &&& match r {
                            Ok(ParseStep::NeedFile(req)) => run_ends(t.last(), final(self).preprocessor, Ok(Progress::NeedFile(req))),
                            Ok(ParseStep::Done(v)) => (exists|c: bool| run_ends(t.last(), final(self).preprocessor, Ok(Progress::Finished { capped: c })))
                                && xref_spec(final(self).preprocessor.program@) == Ok::<Seq<Operator>, CrossRefError>(v@),
                            Err(CompileError::Preprocess(e)) => run_ends(t.last(), final(self).preprocessor, Err(e)),
                            Err(CompileError::CrossRef(e)) => (exists|c: bool| run_ends(t.last(), final(self).preprocessor, Ok(Progress::Finished { capped: c })))
                                && xref_spec(final(self).preprocessor.program@) == Err::<Seq<Operator>, CrossRefError>(e),
                            Err(CompileError::Parse(_)) => false,
                        }
                    }
            }),
    {
        let ops = match to_operators(&self.tokens) {
            Ok(v) => v,
            Err(e) => {
                return Err(CompileError::Parse(e));
            },
        };
        self.tokens = Vec::new();
        let ghost a = old(self).preprocessor;
        let ghost kept = kept_tokens(old(self).tokens@);
        self.preprocessor.supply_file(ops);
        let ghost mid = self.preprocessor;
        proof {
            assert(mid.input@.subrange(kept.len() as int, mid.input@.len() as int) =~= a.input@.subrange(a.pos as int, a.input@.len() as int));
            assert forall|i: int| 0 <= i < kept.len() implies converts(kept[i], #[trigger] mid.input@[i]) by {
                assert(mid.input@[i] == ops@[i]);
            }
        }
        let r = self.preprocessor.preprocess();
        let ghost t = choose|t: Seq<Preprocessor>|
            runs(t) && t.len() >= 1 && t[0] == mid && run_ends(t.last(), self.preprocessor, r);
        match r {
            Err(e) => Err(CompileError::Preprocess(e)),
            Ok(Progress::NeedFile(req)) => Ok(ParseStep::NeedFile(req)),
            Ok(Progress::Finished { capped }) => {
                let prog = crate::preprocessor::slice_ops(
                    &self.preprocessor.program,
                    0,
                    self.preprocessor.program.len(),
                );
                assert(prog@ =~= self.preprocessor.program@);
                assert(run_ends(t.last(), self.preprocessor, Ok(Progress::Finished { capped })));
                match cross_ref(prog) {
                    Ok(v) => Ok(ParseStep::Done(v)),
                    Err(e) => Err(CompileError::CrossRef(e)),
                }
            },
        }
    }
}

} // verus!
