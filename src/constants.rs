use vstd::prelude::*;

verus! {

/// Source location: file, line and column.
#[derive(Debug, Clone)]
pub struct Loc {
    pub file: String,
    pub line: usize,
    pub col: usize,
}

/// Built-in instructions, plus the internal references the preprocessor
/// produces and the `Unresolved` marker for words not yet bound.
#[derive(Debug, Clone, Copy, PartialEq, Eq, Structural)]
pub enum InstructionType {
    // stack
    PushInt,
    PushStr,
    Drop,
    Print,
    Dup,
    Rot,
    Over,
    Swap,
    // math
    Minus,
    Plus,
    Equals,
    Gt,
    Lt,
    Ge,
    Le,
    NotEquals,
    Band,
    Bor,
    Shr,
    Shl,
    DivMod,
    Mul,
    // memory
    Load8,
    Store8,
    Load32,
    Store32,
    Load64,
    Store64,
    // syscalls
    Syscall0,
    Syscall1,
    Syscall2,
    Syscall3,
    Syscall4,
    Syscall5,
    Syscall6,
    // casts
    CastBool,
    CastPtr,
    CastInt,
    CastVoid,
    // typing
    TypeBool,
    TypePtr,
    TypeInt,
    TypeVoid,
    TypeStr,
    TypeAny,
    Returns,
    With,
    // references bound by the preprocessor
    FnCall,
    MemUse,
    ConstUse,
    Return,
    /// A word that is not built in and not yet bound to a definition.
    Unresolved,
}

/// Structural keywords.
#[derive(Debug, Clone, Copy, PartialEq, Eq, Structural)]
pub enum KeywordType {
    If,
    Else,
    End,
    While,
    Do,
    Include,
    Memory,
    Constant,
    Function,
    FunctionThen,
    FunctionDone,
    /// Emitted by the preprocessor where a non-inline function is defined.
    FunctionDef,
    /// Emitted by the preprocessor where a constant is defined.
    ConstantDef,
    Inline,
    Export,
}

#[derive(Debug, Clone, Copy, PartialEq, Eq, Structural)]
pub enum OpType {
    Keyword(KeywordType),
    Instruction(InstructionType),
}

#[derive(Debug, Clone, Copy, PartialEq, Eq, Structural)]
pub enum TokenType {
    Word,
    Int,
    String,
    Char,
}

/// The types the checker tracks on its abstract stack.
#[derive(Debug, Clone, Copy, PartialEq, Eq, Structural)]
pub enum Types {
    Bool,
    Ptr,
    Int,
    Void,
    Str,
    Any,
}

/// A resolved instruction or keyword with its payload, location and (once
/// cross-referenced) jump target.
#[derive(Debug, Clone)]
pub struct Operator {
    pub typ: OpType,
    pub tok_typ: TokenType,
    pub value: usize,
    pub text: String,
    pub addr: Option<usize>,
    pub jmp: usize,
    pub loc: Loc,
}

/// A lexical unit.
#[derive(Debug, Clone)]
pub struct Token {
    pub file: String,
    pub line: usize,
    pub col: usize,
    pub text: String,
    pub typ: TokenType,
    pub value: Option<usize>,
    pub addr: Option<usize>,
    pub op_typ: OpType,
}

/// A field-by-field copy of a location.
pub fn copy_loc(l: &Loc) -> (r: Loc)
    ensures
        r == *l,
{
    Loc { file: l.file.clone(), line: l.line, col: l.col }
}

impl Operator {
    pub fn new(
        typ: OpType,
        tok_typ: TokenType,
        value: usize,
        text: String,
        file: String,
        row: usize,
        col: usize,
    ) -> (r: Self)
        ensures
            r.typ == typ,
            r.tok_typ == tok_typ,
            r.value == value,
            r.text == text,
            r.addr is None,
            r.jmp == 0,
            r.loc == (Loc { file, line: row, col }),
    {
        Operator { typ, tok_typ, value, jmp: 0, addr: None, text, loc: Loc { file, line: row, col } }
    }

    pub fn set_addr(self, addr: usize) -> (r: Self)
        ensures
            r == (Operator { addr: Some(addr), ..self }),
    {
        let mut s = self;
        s.addr = Some(addr);
        s
    }

    /// A copy equal to `self` in every field.
    pub fn duplicate(&self) -> (r: Self)
        ensures
            r == *self,
    {
        Operator {
            typ: self.typ,
            tok_typ: self.tok_typ,
            value: self.value,
            text: self.text.clone(),
            addr: self.addr,
            jmp: self.jmp,
            loc: copy_loc(&self.loc),
        }
    }
}

impl Token {
    pub fn loc(&self) -> (r: Loc)
        ensures
            r == (Loc { file: self.file, line: self.line, col: self.col }),
    {
        Loc { file: self.file.clone(), line: self.line, col: self.col }
    }
}

impl TokenType {
    pub open spec fn human_spec(self) -> Seq<char> {
        match self {
            TokenType::Word => "Word"@,
            TokenType::Int => "Int"@,
            TokenType::String => "String"@,
            TokenType::Char => "Char"@,
        }
    }

    pub fn human(self) -> (r: String)
        ensures
            r@ == self.human_spec(),
    {
        let s = match self {
            TokenType::Word => "Word",
            TokenType::Int => "Int",
            TokenType::String => "String",
            TokenType::Char => "Char",
        };
        String::from_str(s)
    }
}


impl OpType {
    /// How the operator is named in messages.
    pub open spec fn human_spec(self) -> Seq<char> {
        match self {
            OpType::Instruction(InstructionType::PushInt) => "Number"@,
            OpType::Instruction(InstructionType::PushStr) => "String"@,
            OpType::Instruction(InstructionType::Print) => "print"@,
            OpType::Instruction(InstructionType::Dup) => "dup"@,
            OpType::Instruction(InstructionType::Drop) => "drop"@,
            OpType::Instruction(InstructionType::Rot) => "rot"@,
            OpType::Instruction(InstructionType::Over) => "over"@,
            OpType::Instruction(InstructionType::Swap) => "swap"@,
            OpType::Instruction(InstructionType::Plus) => "+"@,
            OpType::Instruction(InstructionType::Minus) => "-"@,
            OpType::Instruction(InstructionType::Equals) => "="@,
            OpType::Instruction(InstructionType::Gt) => ">"@,
            OpType::Instruction(InstructionType::Lt) => "<"@,
            OpType::Instruction(InstructionType::NotEquals) => "!="@,
            OpType::Instruction(InstructionType::Le) => "<="@,
            OpType::Instruction(InstructionType::Ge) => ">="@,
            OpType::Instruction(InstructionType::Band) => "band"@,
            OpType::Instruction(InstructionType::Bor) => "bor"@,
            OpType::Instruction(InstructionType::Shr) => "shr"@,
            OpType::Instruction(InstructionType::Shl) => "shl"@,
            OpType::Instruction(InstructionType::DivMod) => "divmod"@,
            OpType::Instruction(InstructionType::Mul) => "*"@,
            OpType::Instruction(InstructionType::Load8) => "load8"@,
            OpType::Instruction(InstructionType::Store8) => "store8"@,
            OpType::Instruction(InstructionType::Load32) => "load32"@,
            OpType::Instruction(InstructionType::Store32) => "store32"@,
            OpType::Instruction(InstructionType::Load64) => "load64"@,
            OpType::Instruction(InstructionType::Store64) => "store64"@,
            OpType::Instruction(InstructionType::Syscall0) => "syscall0"@,
            OpType::Instruction(InstructionType::Syscall1) => "syscall1"@,
            OpType::Instruction(InstructionType::Syscall2) => "syscall2"@,
            OpType::Instruction(InstructionType::Syscall3) => "syscall3"@,
            OpType::Instruction(InstructionType::Syscall4) => "syscall4"@,
            OpType::Instruction(InstructionType::Syscall5) => "syscall5"@,
            OpType::Instruction(InstructionType::Syscall6) => "syscall6"@,
            OpType::Instruction(InstructionType::CastBool) => "cast(bool)"@,
            OpType::Instruction(InstructionType::CastPtr) => "cast(ptr)"@,
            OpType::Instruction(InstructionType::CastInt) => "cast(int)"@,
            OpType::Instruction(InstructionType::CastVoid) => "cast(void)"@,
            OpType::Instruction(InstructionType::Unresolved) => "None"@,
            OpType::Instruction(InstructionType::MemUse) => "Memory use (internal)"@,
            OpType::Instruction(InstructionType::FnCall) => "Function Call (Internal)"@,
            OpType::Instruction(InstructionType::ConstUse) => "Constant Use (Internal)"@,
            OpType::Instruction(InstructionType::Return) => "return"@,
            OpType::Instruction(InstructionType::TypeBool) => "bool"@,
            OpType::Instruction(InstructionType::TypePtr) => "ptr"@,
            OpType::Instruction(InstructionType::TypeInt) => "int"@,
            OpType::Instruction(InstructionType::TypeVoid) => "void"@,
            OpType::Instruction(InstructionType::TypeStr) => "str"@,
            OpType::Instruction(InstructionType::Returns) => "returns"@,
            OpType::Instruction(InstructionType::With) => "with"@,
            OpType::Instruction(InstructionType::TypeAny) => "any"@,
            OpType::Keyword(KeywordType::If) => "if"@,
            OpType::Keyword(KeywordType::Else) => "else"@,
            OpType::Keyword(KeywordType::End) => "end"@,
            OpType::Keyword(KeywordType::While) => "while"@,
            OpType::Keyword(KeywordType::Do) => "do"@,
            OpType::Keyword(KeywordType::Include) => "include"@,
            OpType::Keyword(KeywordType::Memory) => "memory"@,
            OpType::Keyword(KeywordType::Function) => "fn"@,
            OpType::Keyword(KeywordType::Constant) => "const"@,
            OpType::Keyword(KeywordType::FunctionThen) => "then"@,
            OpType::Keyword(KeywordType::FunctionDone) => "done"@,
            OpType::Keyword(KeywordType::FunctionDef) => "fn"@,
            OpType::Keyword(KeywordType::ConstantDef) => "const"@,
            OpType::Keyword(KeywordType::Inline) => "inline"@,
            OpType::Keyword(KeywordType::Export) => "export"@,
        }
    }

    pub fn human(&self) -> (r: String)
        ensures
            r@ == self.human_spec(),
    {
        let s = match *self {
            OpType::Instruction(InstructionType::PushInt) => "Number",
            OpType::Instruction(InstructionType::PushStr) => "String",
            OpType::Instruction(InstructionType::Print) => "print",
            OpType::Instruction(InstructionType::Dup) => "dup",
            OpType::Instruction(InstructionType::Drop) => "drop",
            OpType::Instruction(InstructionType::Rot) => "rot",
            OpType::Instruction(InstructionType::Over) => "over",
            OpType::Instruction(InstructionType::Swap) => "swap",
            OpType::Instruction(InstructionType::Plus) => "+",
            OpType::Instruction(InstructionType::Minus) => "-",
            OpType::Instruction(InstructionType::Equals) => "=",
            OpType::Instruction(InstructionType::Gt) => ">",
            OpType::Instruction(InstructionType::Lt) => "<",
            OpType::Instruction(InstructionType::NotEquals) => "!=",
            OpType::Instruction(InstructionType::Le) => "<=",
            OpType::Instruction(InstructionType::Ge) => ">=",
            OpType::Instruction(InstructionType::Band) => "band",
            OpType::Instruction(InstructionType::Bor) => "bor",
            OpType::Instruction(InstructionType::Shr) => "shr",
            OpType::Instruction(InstructionType::Shl) => "shl",
            OpType::Instruction(InstructionType::DivMod) => "divmod",
            OpType::Instruction(InstructionType::Mul) => "*",
            OpType::Instruction(InstructionType::Load8) => "load8",
            OpType::Instruction(InstructionType::Store8) => "store8",
            OpType::Instruction(InstructionType::Load32) => "load32",
            OpType::Instruction(InstructionType::Store32) => "store32",
            OpType::Instruction(InstructionType::Load64) => "load64",
            OpType::Instruction(InstructionType::Store64) => "store64",
            OpType::Instruction(InstructionType::Syscall0) => "syscall0",
            OpType::Instruction(InstructionType::Syscall1) => "syscall1",
            OpType::Instruction(InstructionType::Syscall2) => "syscall2",
            OpType::Instruction(InstructionType::Syscall3) => "syscall3",
            OpType::Instruction(InstructionType::Syscall4) => "syscall4",
            OpType::Instruction(InstructionType::Syscall5) => "syscall5",
            OpType::Instruction(InstructionType::Syscall6) => "syscall6",
            OpType::Instruction(InstructionType::CastBool) => "cast(bool)",
            OpType::Instruction(InstructionType::CastPtr) => "cast(ptr)",
            OpType::Instruction(InstructionType::CastInt) => "cast(int)",
            OpType::Instruction(InstructionType::CastVoid) => "cast(void)",
            OpType::Instruction(InstructionType::Unresolved) => "None",
            OpType::Instruction(InstructionType::MemUse) => "Memory use (internal)",
            OpType::Instruction(InstructionType::FnCall) => "Function Call (Internal)",
            OpType::Instruction(InstructionType::ConstUse) => "Constant Use (Internal)",
            OpType::Instruction(InstructionType::Return) => "return",
            OpType::Instruction(InstructionType::TypeBool) => "bool",
            OpType::Instruction(InstructionType::TypePtr) => "ptr",
            OpType::Instruction(InstructionType::TypeInt) => "int",
            OpType::Instruction(InstructionType::TypeVoid) => "void",
            OpType::Instruction(InstructionType::TypeStr) => "str",
            OpType::Instruction(InstructionType::Returns) => "returns",
            OpType::Instruction(InstructionType::With) => "with",
            OpType::Instruction(InstructionType::TypeAny) => "any",
            OpType::Keyword(KeywordType::If) => "if",
            OpType::Keyword(KeywordType::Else) => "else",
            OpType::Keyword(KeywordType::End) => "end",
            OpType::Keyword(KeywordType::While) => "while",
            OpType::Keyword(KeywordType::Do) => "do",
            OpType::Keyword(KeywordType::Include) => "include",
            OpType::Keyword(KeywordType::Memory) => "memory",
            OpType::Keyword(KeywordType::Function) => "fn",
            OpType::Keyword(KeywordType::Constant) => "const",
            OpType::Keyword(KeywordType::FunctionThen) => "then",
            OpType::Keyword(KeywordType::FunctionDone) => "done",
            OpType::Keyword(KeywordType::FunctionDef) => "fn",
            OpType::Keyword(KeywordType::ConstantDef) => "const",
            OpType::Keyword(KeywordType::Inline) => "inline",
            OpType::Keyword(KeywordType::Export) => "export",
        };
        String::from_str(s)
    }
}

} // verus!
