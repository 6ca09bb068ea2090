//! The resolved program that the lint reads.
//!
//! Functions, contracts and variables live in tables and are named by their position in them.
//! Statements, expressions and types are trees. A declaration carries its type and its
//! initializer in place, so walking a tree never leaves it; what a mere mention of a variable
//! needs (its kind, the form of its type, its name) is looked up in the table.

use vstd::prelude::*;

verus! {

/// Position of a variable in [`Hir::variables`].
pub type VariableId = usize;

/// Position of a function in [`Hir::functions`].
pub type FunctionId = usize;

/// Position of a contract in [`Hir::contracts`].
pub type ContractId = usize;

/// A source location: the byte range `lo..hi` of the source map.
#[derive(Clone, Copy, Debug, PartialEq, Eq, Structural)]
pub struct Span {
    pub lo: u32,
    pub hi: u32,
}

/// An item of the program, by kind and position.
#[derive(Clone, Copy, Debug, PartialEq, Eq, Structural)]
pub enum ItemId {
    Contract(ContractId),
    Function(FunctionId),
    Variable(VariableId),
    Struct(usize),
    Enum(usize),
    Udvt(usize),
    Error(usize),
    Event(usize),
}

/// What a name resolves to.
#[derive(Debug)]
pub enum Res {
    /// An item of the program.
    Item(ItemId),
    /// An imported namespace.
    Namespace(usize),
    /// A compiler builtin, by its name.
    Builtin(String),
    /// A name that did not resolve.
    Invalid,
}

/// Where a variable is declared.
#[derive(Clone, Copy, Debug, PartialEq, Eq, Structural)]
pub enum VarKind {
    Global,
    State,
    Struct,
    Event,
    Error,
    FunctionParam,
    FunctionReturn,
    FunctionTyParam,
    FunctionTyReturn,
    Statement,
    TryCatch,
}

/// The outermost form of a variable's type.
#[derive(Clone, Copy, Debug, PartialEq, Eq, Structural)]
pub enum TypeForm {
    /// `address` or `address payable`.
    Address,
    /// Any other elementary type.
    Elementary,
    Array,
    Function,
    Mapping,
    Custom,
    Invalid,
}

/// What the table records of a variable.
#[derive(Debug)]
pub struct Variable {
    pub kind: VarKind,
    pub ty: TypeForm,
    /// `None` for an unnamed parameter.
    pub name: Option<String>,
}

/// A declaration, at the place where it stands.
#[derive(Debug)]
pub struct VarDecl {
    pub var: VariableId,
    pub ty: Type,
    pub initializer: Option<Box<Expr>>,
}

/// A type name.
#[derive(Debug)]
pub enum Type {
    Elementary,
    /// Element type and, for a fixed-size array, the size.
    Array(Box<Type>, Option<Box<Expr>>),
    /// Parameters and returns.
    Function(Vec<VarDecl>, Vec<VarDecl>),
    /// Key and value.
    Mapping(Box<Type>, Box<Type>),
    Custom,
    Invalid,
}

/// A binary operator.
#[derive(Clone, Copy, Debug, PartialEq, Eq, Structural)]
pub enum BinOpKind {
    Lt,
    Le,
    Gt,
    Ge,
    Eq,
    Ne,
    Or,
    And,
    Shr,
    Shl,
    Sar,
    BitAnd,
    BitOr,
    BitXor,
    Add,
    Sub,
    Pow,
    Mul,
    Div,
    Rem,
}

/// A unary operator.
#[derive(Clone, Copy, Debug, PartialEq, Eq, Structural)]
pub enum UnOpKind {
    PreInc,
    PreDec,
    Not,
    Neg,
    BitNot,
    PostInc,
    PostDec,
}

/// A named argument or call option: `name: value`.
#[derive(Debug)]
pub struct NamedArg {
    pub name: String,
    pub value: Expr,
}

/// The arguments of a call or of a modifier invocation.
#[derive(Debug)]
pub enum CallArgs {
    Unnamed(Vec<Expr>),
    Named(Vec<NamedArg>),
}

/// An expression.
#[derive(Debug)]
pub struct Expr {
    pub kind: ExprKind,
    pub span: Span,
}

/// A kind of expression.
#[derive(Debug)]
pub enum ExprKind {
    /// `[a, b]`
    Array(Vec<Expr>),
    /// `a = b`, `a += b`
    Assign(Box<Expr>, Option<BinOpKind>, Box<Expr>),
    /// `a + b`
    Binary(Box<Expr>, BinOpKind, Box<Expr>),
    /// `f(a)`, `f({x: a})`, `f{gas: g}(a)`
    Call(Box<Expr>, CallArgs, Option<Vec<NamedArg>>),
    /// `delete a`
    Delete(Box<Expr>),
    /// A name, with everything that it may refer to.
    Ident(Vec<Res>),
    /// `a[i]`, `T[]`
    Index(Box<Expr>, Option<Box<Expr>>),
    /// `a[i:j]`
    Slice(Box<Expr>, Option<Box<Expr>>, Option<Box<Expr>>),
    /// A literal.
    Lit,
    /// `a.name`
    Member(Box<Expr>, String),
    /// `new T`
    New(Type),
    /// `payable(a)`
    Payable(Box<Expr>),
    /// `c ? a : b`
    Ternary(Box<Expr>, Box<Expr>, Box<Expr>),
    /// `(a,, b)`; parentheses around one expression are a tuple of one element.
    Tuple(Vec<Option<Expr>>),
    /// `type(T)`
    TypeCall(Type),
    /// `uint256`
    Type(Type),
    /// `!a`, `a++`
    Unary(UnOpKind, Box<Expr>),
    /// An expression that did not lower.
    Invalid,
}

/// A sequence of statements.
#[derive(Debug)]
pub struct Block {
    pub stmts: Vec<Stmt>,
}

/// One clause of a `try` statement: its declarations and its block.
#[derive(Debug)]
pub struct TryCatchClause {
    pub args: Vec<VarDecl>,
    pub block: Block,
}

/// A statement.
#[derive(Debug)]
pub enum Stmt {
    /// `T a = e;`
    DeclSingle(VarDecl),
    /// `(T a,, U b) = e;`
    DeclMulti(Vec<Option<VarDecl>>, Box<Expr>),
    /// `{ ... }`
    Block(Block),
    /// `unchecked { ... }`
    UncheckedBlock(Block),
    /// `emit e;`
    Emit(Box<Expr>),
    /// `revert e;`
    Revert(Box<Expr>),
    /// `return e;`
    Return(Option<Box<Expr>>),
    Break,
    Continue,
    /// The body that every loop form lowers to.
    Loop(Block),
    /// `if (e) s else t`
    If(Box<Expr>, Box<Stmt>, Option<Box<Stmt>>),
    /// `try e returns (...) { ... } catch { ... }`
    Try(Box<Expr>, Vec<TryCatchClause>),
    /// `e;`
    Expr(Box<Expr>),
    /// `_;` in a modifier.
    Placeholder,
    /// A statement that did not lower.
    Invalid,
}

/// A modifier invocation, or a base-class call of a constructor.
#[derive(Debug)]
pub struct Modifier {
    pub id: ItemId,
    pub args: CallArgs,
}

/// The kind of a function.
#[derive(Clone, Copy, Debug, PartialEq, Eq, Structural)]
pub enum FunctionKind {
    Constructor,
    Function,
    Fallback,
    Receive,
    Modifier,
}

/// The visibility of a function.
#[derive(Clone, Copy, Debug, PartialEq, Eq, Structural)]
pub enum Visibility {
    Private,
    Internal,
    Public,
    External,
}

/// The state mutability of a function.
#[derive(Clone, Copy, Debug, PartialEq, Eq, Structural)]
pub enum StateMutability {
    Pure,
    View,
    Payable,
    NonPayable,
}

/// A function, constructor or modifier.
#[derive(Debug)]
pub struct Function {
    /// The contract that declares it; `None` for a free function.
    pub contract: Option<ContractId>,
    pub kind: FunctionKind,
    pub visibility: Visibility,
    pub state_mutability: StateMutability,
    pub modifiers: Vec<Modifier>,
    pub parameters: Vec<VariableId>,
    /// `None` for a declaration without an implementation.
    pub body: Option<Block>,
}

/// A contract.
#[derive(Debug)]
pub struct Contract {
    /// The contract itself, then its bases in order of inheritance.
    pub linearized_bases: Vec<ContractId>,
    /// The items that the contract itself declares.
    pub items: Vec<ItemId>,
}

/// The program.
#[derive(Debug)]
pub struct Hir {
    pub contracts: Vec<Contract>,
    pub functions: Vec<Function>,
    pub variables: Vec<Variable>,
}

} // verus!
