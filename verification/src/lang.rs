//! The source language's vocabulary: its tokens, operators, declaration
//! kinds and types, and the errors of compiling it.
use vstd::prelude::*;
use vstd::string::*;

verus! {

/// How a binding may change.
#[derive(Clone, Copy, Debug, PartialEq, Eq, Structural)]
pub enum DeclKind {
    MutableStatic,
    ImmutableStatic,
    Dynamic,
}

/// The binary operators of the source language.
#[derive(Clone, Copy, Debug, PartialEq, Eq, Structural)]
pub enum BinOp {
    Add,
    Sub,
    Mul,
    Div,
    Eq,
    Neq,
    Lt,
    Gt,
    And,
    Or,
    Assign,
    Mod,
    Power,
}

/// The unary operators of the source language.
#[derive(Clone, Copy, Debug, PartialEq, Eq, Structural)]
pub enum UnOp {
    Neg,
    Not,
    AddrOf,
}

/// The assignment forms: plain, immutable (`=!`), dynamic (`=?`).
#[derive(Clone, Copy, Debug, PartialEq, Eq, Structural)]
pub enum AssignOp {
    Assign,
    Immutable,
    Dynamic,
}

/// The arithmetic operations of the lowered code.
#[derive(Clone, Copy, Debug, PartialEq, Eq, Structural)]
pub enum Op {
    Add,
    Sub,
    Mul,
    Div,
    Cmp,
    Neg,
}

/// The operators that lower to an arithmetic operation.
pub open spec fn is_arithmetic(op: BinOp) -> bool {
    op == BinOp::Add || op == BinOp::Sub || op == BinOp::Mul || op == BinOp::Div
}

/// The operation an arithmetic operator lowers to.
pub open spec fn arithmetic_op(op: BinOp) -> Op {
    match op {
        BinOp::Add => Op::Add,
        BinOp::Sub => Op::Sub,
        BinOp::Mul => Op::Mul,
        _ => Op::Div,
    }
}

/// The operation an arithmetic operator lowers to; the others have none.
pub fn map_binop(op: BinOp) -> (r: Op)
    requires
        is_arithmetic(op),
    ensures
        r == arithmetic_op(op),
{
    match op {
        BinOp::Add => Op::Add,
        BinOp::Sub => Op::Sub,
        BinOp::Mul => Op::Mul,
        _ => Op::Div,
    }
}

/// The types of values.
#[derive(Debug)]
pub enum Type {
    I32,
    F64,
    Bool,
    Str,
    Void,
    Ptr(Box<Type>),
    Array(Box<Type>),
    Unknown,
}

/// An operation of the lowered code.
pub enum LoweredOp {
    Binary { target: String, left: String, op: Op, right: String },
    Move { target: String, source: String },
    Label(String),
    Jump(String),
    JumpIf { condition: String, label: String },
    Nop,
}

/// How the compiler runs.
#[derive(Clone, Copy, Debug, PartialEq, Eq, Structural)]
pub enum CompileMode {
    Batch,
    Interactive,
    Watch,
}

/// The errors of compiling a source file, by stage.
pub enum CompilerError {
    Io(String),
    Lexer(String),
    Parser(String),
    Analysis(String),
    Backend(String),
}

/// The message of a compiler error: its stage, then its detail.
pub open spec fn compiler_error_text(e: CompilerError) -> Seq<char> {
    match e {
        CompilerError::Io(s) => "IO Error: "@ + s@,
        CompilerError::Lexer(s) => "Lexer Error: "@ + s@,
        CompilerError::Parser(s) => "Parser Error: "@ + s@,
        CompilerError::Analysis(s) => "Analysis Error: "@ + s@,
        CompilerError::Backend(s) => "Backend Error: "@ + s@,
    }
}

/// `prefix` followed by `detail`.
fn prefixed(prefix: &str, detail: &String) -> (r: String)
    ensures
        r@ == prefix@ + detail@,
{
    let mut s = String::from_str(prefix);
    s.append(detail.as_str());
    s
}

impl CompilerError {
    pub fn message(&self) -> (r: String)
        ensures
            r@ == compiler_error_text(*self),
    {
        match self {
            CompilerError::Io(s) => prefixed("IO Error: ", s),
            CompilerError::Lexer(s) => prefixed("Lexer Error: ", s),
            CompilerError::Parser(s) => prefixed("Parser Error: ", s),
            CompilerError::Analysis(s) => prefixed("Analysis Error: ", s),
            CompilerError::Backend(s) => prefixed("Backend Error: ", s),
        }
    }
}

/// The errors of a project compilation, by stage.
pub enum Error {
    Io(String),
    Lexer(String),
    Parser(String),
    Analysis(String),
    Backend(String),
}

/// The message of a project error: its stage, then its detail.
pub open spec fn error_text(e: Error) -> Seq<char> {
    match e {
        Error::Io(s) => "IO Error: "@ + s@,
        Error::Lexer(s) => "Lexer Error: "@ + s@,
        Error::Parser(s) => "Parser Error: "@ + s@,
        Error::Analysis(s) => "Analysis Error: "@ + s@,
        Error::Backend(s) => "Backend Error: "@ + s@,
    }
}

impl Error {
    pub fn message(&self) -> (r: String)
        ensures
            r@ == error_text(*self),
    {
        match self {
            Error::Io(s) => prefixed("IO Error: ", s),
            Error::Lexer(s) => prefixed("Lexer Error: ", s),
            Error::Parser(s) => prefixed("Parser Error: ", s),
            Error::Analysis(s) => prefixed("Analysis Error: ", s),
            Error::Backend(s) => prefixed("Backend Error: ", s),
        }
    }
}

/// The failure of a compiler stage.
pub enum StageError {
    StageFailed(String),
}

/// Checks names and types; holds the types of known names and a counter
/// for new scopes.
pub struct SemanticAnalyzer {
    pub symbols: Vec<(String, Type)>,
    pub scope_counter: usize,
}

/// The tokens of two characters.
#[allow(non_camel_case_types)]
#[derive(Clone, Copy, Debug, PartialEq, Eq, Structural)]
pub enum MultiChar_02 {
    Eq,
    Neq,
    Immutable,
    Dynamic,
    EqualsColon,
    Or,
    And,
    Inc,
    Dec,
    Floor,
    Ge,
    Le,
}

/// The text that each token of `MultiChar_02` matches.
pub open spec fn multi_char_text(t: MultiChar_02) -> Seq<char> {
    match t {
        MultiChar_02::Eq => "=="@,
        MultiChar_02::Neq => "!="@,
        MultiChar_02::Immutable => "=!"@,
        MultiChar_02::Dynamic => "=?"@,
        MultiChar_02::EqualsColon => "=:"@,
        MultiChar_02::Or => "||"@,
        MultiChar_02::And => "&&"@,
        MultiChar_02::Inc => "+="@,
        MultiChar_02::Dec => "-="@,
        MultiChar_02::Floor => "//"@,
        MultiChar_02::Ge => ">="@,
        MultiChar_02::Le => "<="@,
    }
}

impl MultiChar_02 {
    /// The text the token matches.
    pub fn text(&self) -> (r: &'static str)
        ensures
            r@ == multi_char_text(*self),
    {
        match self {
            MultiChar_02::Eq => "==",
            MultiChar_02::Neq => "!=",
            MultiChar_02::Immutable => "=!",
            MultiChar_02::Dynamic => "=?",
            MultiChar_02::EqualsColon => "=:",
            MultiChar_02::Or => "||",
            MultiChar_02::And => "&&",
            MultiChar_02::Inc => "+=",
            MultiChar_02::Dec => "-=",
            MultiChar_02::Floor => "//",
            MultiChar_02::Ge => ">=",
            MultiChar_02::Le => "<=",
        }
    }
}

/// The tokens of one operator character.
#[allow(non_camel_case_types)]
#[derive(Clone, Copy, Debug, PartialEq, Eq, Structural)]
pub enum SingleChar_03 {
    Assign,
    Not,
    Ampersand,
    Colon,
    Pipe,
    Plus,
    Minus,
    Slash,
    Gt,
    Lt,
    Star,
    Mod,
    Power,
}

/// The text that each token of `SingleChar_03` matches.
pub open spec fn single_char_text(t: SingleChar_03) -> Seq<char> {
    match t {
        SingleChar_03::Assign => "="@,
        SingleChar_03::Not => "!"@,
        SingleChar_03::Ampersand => "&"@,
        SingleChar_03::Colon => ":"@,
        SingleChar_03::Pipe => "|"@,
        SingleChar_03::Plus => "+"@,
        SingleChar_03::Minus => "-"@,
        SingleChar_03::Slash => "/"@,
        SingleChar_03::Gt => ">"@,
        SingleChar_03::Lt => "<"@,
        SingleChar_03::Star => "*"@,
        SingleChar_03::Mod => "%"@,
        SingleChar_03::Power => "^"@,
    }
}

impl SingleChar_03 {
    /// The text the token matches.
    pub fn text(&self) -> (r: &'static str)
        ensures
            r@ == single_char_text(*self),
    {
        match self {
            SingleChar_03::Assign => "=",
            SingleChar_03::Not => "!",
            SingleChar_03::Ampersand => "&",
            SingleChar_03::Colon => ":",
            SingleChar_03::Pipe => "|",
            SingleChar_03::Plus => "+",
            SingleChar_03::Minus => "-",
            SingleChar_03::Slash => "/",
            SingleChar_03::Gt => ">",
            SingleChar_03::Lt => "<",
            SingleChar_03::Star => "*",
            SingleChar_03::Mod => "%",
            SingleChar_03::Power => "^",
        }
    }
}

/// The punctuation tokens.
#[allow(non_camel_case_types)]
#[derive(Clone, Copy, Debug, PartialEq, Eq, Structural)]
pub enum Structural_04 {
    Dot,
    LBrace,
    RBrace,
    LBracket,
    RBracket,
    LParen,
    RParen,
    Semicolon,
    Comma,
}

/// The text that each token of `Structural_04` matches.
pub open spec fn structural_text(t: Structural_04) -> Seq<char> {
    match t {
        Structural_04::Dot => "."@,
        Structural_04::LBrace => "{"@,
        Structural_04::RBrace => "}"@,
        Structural_04::LBracket => "["@,
        Structural_04::RBracket => "]"@,
        Structural_04::LParen => "("@,
        Structural_04::RParen => ")"@,
        Structural_04::Semicolon => ";"@,
        Structural_04::Comma => ","@,
    }
}

impl Structural_04 {
    /// The text the token matches.
    pub fn text(&self) -> (r: &'static str)
        ensures
            r@ == structural_text(*self),
    {
        match self {
            Structural_04::Dot => ".",
            Structural_04::LBrace => "{",
            Structural_04::RBrace => "}",
            Structural_04::LBracket => "[",
            Structural_04::RBracket => "]",
            Structural_04::LParen => "(",
            Structural_04::RParen => ")",
            Structural_04::Semicolon => ";",
            Structural_04::Comma => ",",
        }
    }
}

/// The tokens that open notes and raw blocks.
#[derive(Clone, Copy, Debug, PartialEq, Eq, Structural)]
pub enum Meta {
    LineNote,
    BlockNote,
    RawStart,
    RawEnd,
}

/// The text that each token of `Meta` matches.
pub open spec fn meta_text(t: Meta) -> Seq<char> {
    match t {
        Meta::LineNote => "#"@,
        Meta::BlockNote => "`>"@,
        Meta::RawStart => "@{"@,
        Meta::RawEnd => "}@"@,
    }
}

impl Meta {
    /// The text the token matches.
    pub fn text(&self) -> (r: &'static str)
        ensures
            r@ == meta_text(*self),
    {
        match self {
            Meta::LineNote => "#",
            Meta::BlockNote => "`>",
            Meta::RawStart => "@{",
            Meta::RawEnd => "}@",
        }
    }
}

/// The tokens that open notes and raw blocks, raw ends included.
#[allow(non_camel_case_types)]
#[derive(Clone, Copy, Debug, PartialEq, Eq, Structural)]
pub enum Meta_05 {
    LineNote,
    BlockNote,
    RawStart,
    RawEnd,
}

/// The text that each token of `Meta_05` matches.
pub open spec fn meta_05_text(t: Meta_05) -> Seq<char> {
    match t {
        Meta_05::LineNote => "#"@,
        Meta_05::BlockNote => "`>"@,
        Meta_05::RawStart => "@{"@,
        Meta_05::RawEnd => "}@"@,
    }
}

impl Meta_05 {
    /// The text the token matches.
    pub fn text(&self) -> (r: &'static str)
        ensures
            r@ == meta_05_text(*self),
    {
        match self {
            Meta_05::LineNote => "#",
            Meta_05::BlockNote => "`>",
            Meta_05::RawStart => "@{",
            Meta_05::RawEnd => "}@",
        }
    }
}

/// The keywords.
#[allow(non_camel_case_types)]
#[derive(Clone, Copy, Debug, PartialEq, Eq, Structural)]
pub enum Identifiers_06 {
    Dependency,
    Package,
    Module,
    Public,
    Private,
    Print,
    If,
    ElseIf,
    Else,
    Unless,
    Switch,
    Case,
    Default,
    Match,
    Pipeline,
    Function,
    Yield,
    Next,
    Return,
    Do,
    Loop,
    Until,
    While,
    For,
    Of,
    In,
    Break,
    Continue,
    Is,
    Assert,
    Try,
    Catch,
    Finally,
    Throw,
    Enum,
    Struct,
    Trait,
    Impl,
    As,
    True,
    False,
    OrAlias,
    AndAlias,
}

/// The text that each token of `Identifiers_06` matches.
pub open spec fn keyword_text(t: Identifiers_06) -> Seq<char> {
    match t {
        Identifiers_06::Dependency => "dep"@,
        Identifiers_06::Package => "pkg"@,
        Identifiers_06::Module => "mod"@,
        Identifiers_06::Public => "pub"@,
        Identifiers_06::Private => "priv"@,
        Identifiers_06::Print => "print"@,
        Identifiers_06::If => "if"@,
        Identifiers_06::ElseIf => "elif"@,
        Identifiers_06::Else => "else"@,
        Identifiers_06::Unless => "unless"@,
        Identifiers_06::Switch => "switch"@,
        Identifiers_06::Case => "case"@,
        Identifiers_06::Default => "default"@,
        Identifiers_06::Match => "match"@,
        Identifiers_06::Pipeline => "pipe"@,
        Identifiers_06::Function => "fn"@,
        Identifiers_06::Yield => "yield"@,
        Identifiers_06::Next => "next"@,
        Identifiers_06::Return => "return"@,
        Identifiers_06::Do => "Do"@,
        Identifiers_06::Loop => "loop"@,
        Identifiers_06::Until => "until"@,
        Identifiers_06::While => "while"@,
        Identifiers_06::For => "for"@,
        Identifiers_06::Of => "of"@,
        Identifiers_06::In => "in"@,
        Identifiers_06::Break => "break"@,
        Identifiers_06::Continue => "continue"@,
        Identifiers_06::Is => "is"@,
        Identifiers_06::Assert => "assert"@,
        Identifiers_06::Try => "try"@,
        Identifiers_06::Catch => "catch"@,
        Identifiers_06::Finally => "finally"@,
        Identifiers_06::Throw => "throw"@,
        Identifiers_06::Enum => "enum"@,
        Identifiers_06::Struct => "struct"@,
        Identifiers_06::Trait => "trait"@,
        Identifiers_06::Impl => "impl"@,
        Identifiers_06::As => "as"@,
        Identifiers_06::True => "true"@,
        Identifiers_06::False => "false"@,
        Identifiers_06::OrAlias => "or"@,
        Identifiers_06::AndAlias => "and"@,
    }
}

impl Identifiers_06 {
    /// The text the token matches.
    pub fn text(&self) -> (r: &'static str)
        ensures
            r@ == keyword_text(*self),
    {
        match self {
            Identifiers_06::Dependency => "dep",
            Identifiers_06::Package => "pkg",
            Identifiers_06::Module => "mod",
            Identifiers_06::Public => "pub",
            Identifiers_06::Private => "priv",
            Identifiers_06::Print => "print",
            Identifiers_06::If => "if",
            Identifiers_06::ElseIf => "elif",
            Identifiers_06::Else => "else",
            Identifiers_06::Unless => "unless",
            Identifiers_06::Switch => "switch",
            Identifiers_06::Case => "case",
            Identifiers_06::Default => "default",
            Identifiers_06::Match => "match",
            Identifiers_06::Pipeline => "pipe",
            Identifiers_06::Function => "fn",
            Identifiers_06::Yield => "yield",
            Identifiers_06::Next => "next",
            Identifiers_06::Return => "return",
            Identifiers_06::Do => "Do",
            Identifiers_06::Loop => "loop",
            Identifiers_06::Until => "until",
            Identifiers_06::While => "while",
            Identifiers_06::For => "for",
            Identifiers_06::Of => "of",
            Identifiers_06::In => "in",
            Identifiers_06::Break => "break",
            Identifiers_06::Continue => "continue",
            Identifiers_06::Is => "is",
            Identifiers_06::Assert => "assert",
            Identifiers_06::Try => "try",
            Identifiers_06::Catch => "catch",
            Identifiers_06::Finally => "finally",
            Identifiers_06::Throw => "throw",
            Identifiers_06::Enum => "enum",
            Identifiers_06::Struct => "struct",
            Identifiers_06::Trait => "trait",
            Identifiers_06::Impl => "impl",
            Identifiers_06::As => "as",
            Identifiers_06::True => "true",
            Identifiers_06::False => "false",
            Identifiers_06::OrAlias => "or",
            Identifiers_06::AndAlias => "and",
        }
    }
}

} // verus!
