//! The typed program tree that the engine reads.
//!
//! A front end builds these values; the engine only ever borrows them. Each
//! node carries the source span that diagnostics point at. Node kinds that
//! the engine has no rule for are folded into `Other` variants, so that they
//! can be refused by name instead of being lost.
use vstd::prelude::*;

verus! {

/// A region of source text, as two byte offsets.
#[derive(Clone, Copy, Debug, PartialEq, Eq, Structural)]
pub struct Span {
    pub lo: u32,
    pub hi: u32,
}

/// The source type of a variable, as far as the solver's sorts tell types
/// apart.
#[derive(Clone, Copy, Debug, PartialEq, Eq, Structural)]
pub enum Ty {
    Bool,
    Int,
    Float,
    Str,
    /// A type that has no solver sort.
    Other,
}

/// A literal as it stands in the source. Floats keep their source text.
#[derive(Clone, Debug, PartialEq, Eq)]
pub enum Lit {
    Str(String),
    Char(char),
    Int(u128),
    Float(String),
    Bool(bool),
    ByteStr(Vec<u8>),
    /// A literal of a kind that is not rendered.
    Other,
}

#[derive(Clone, Copy, Debug, PartialEq, Eq, Structural)]
pub enum UnOp {
    Not,
    Neg,
    PtrMetadata,
}

#[derive(Clone, Copy, Debug, PartialEq, Eq, Structural)]
pub enum BinOp {
    Add,
    Sub,
    Mul,
    Div,
    Rem,
    BitXor,
    BitAnd,
    BitOr,
    Shl,
    Shr,
    Eq,
    Lt,
    Le,
    Ne,
    Ge,
    Gt,
    Cmp,
    Offset,
}

#[derive(Clone, Copy, Debug, PartialEq, Eq, Structural)]
pub enum LogicalOp {
    And,
    Or,
}

/// What a call names: the called function's path, and its key in the
/// function map where it is defined in the analysed program itself.
#[derive(Clone, Debug, PartialEq, Eq)]
pub struct FnDef {
    pub local: Option<u64>,
    pub path: String,
}

#[derive(Clone, Debug, PartialEq, Eq)]
pub enum RPatKind {
    Wild,
    Binding { name: String, ty: Ty, var: u64 },
    /// Any other pattern shape.
    Other,
}

#[allow(inconsistent_fields)]
#[derive(Debug, PartialEq, Eq)]
pub enum RExprKind {
    Literal { lit: Lit, neg: bool },
    VarRef { id: u64 },
    Unary { op: UnOp, arg: Box<RExpr> },
    Binary { op: BinOp, lhs: Box<RExpr>, rhs: Box<RExpr> },
    LogicalOp { op: LogicalOp, lhs: Box<RExpr>, rhs: Box<RExpr> },
    Assign { lhs: Box<RExpr>, rhs: Box<RExpr> },
    AssignOp { op: BinOp, lhs: Box<RExpr>, rhs: Box<RExpr> },
    LetStmt { pattern: Box<RExpr>, initializer: Option<Box<RExpr>>, else_block: Option<Box<RExpr>> },
    If { cond: Box<RExpr>, then: Box<RExpr>, else_opt: Option<Box<RExpr>> },
    Return { value: Option<Box<RExpr>> },
    Call { def: FnDef, args: Vec<RExpr> },
    Pat { kind: RPatKind },
    Block { stmts: Vec<RExpr>, expr: Option<Box<RExpr>> },
    /// A loop; it is analysed only behind the annotation of its invariant.
    Loop { body: Box<RExpr> },
    /// A `break`; the engine has no rule for it.
    Break,
    /// Any other node kind.
    Other,
}

#[derive(Debug, PartialEq, Eq)]
pub struct RExpr {
    pub kind: RExprKind,
    pub span: Span,
}

#[derive(Debug, PartialEq, Eq)]
pub struct RParam {
    pub pat: Option<Box<RExpr>>,
}

/// One function of the analysed program.
#[derive(Debug, PartialEq, Eq)]
pub struct RThir {
    pub params: Vec<RParam>,
    pub body: Option<RExpr>,
}

} // verus!
