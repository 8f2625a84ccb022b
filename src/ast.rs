//! The syntax tree of a module, as the parser hands it over.
use vstd::prelude::*;

verus! {

/// A range of source positions.
#[derive(Debug, Clone, Copy, PartialEq, Eq, Structural)]
pub struct Span {
    pub start: usize,
    pub end: usize,
}

/// An identifier with the place where it was written.
#[derive(Debug, Clone)]
pub struct Name {
    pub text: String,
    pub span: Span,
}

/// A `::`-separated path such as `ingot::a::b::T`.
#[derive(Debug, Clone)]
pub struct Path {
    pub segments: Vec<Name>,
}

/// A field of a contract, a struct or an event.
#[derive(Debug, Clone)]
pub struct Field {
    pub is_pub: bool,
    pub name: Name,
    pub typ: Path,
    pub span: Span,
}

/// A function parameter.
#[derive(Debug, Clone)]
pub enum FunctionArg {
    Zelf(Span),
    Regular { name: Name, typ: Path },
}

/// A function definition; its body is left to the type checker.
#[derive(Debug, Clone)]
pub struct Function {
    pub pub_: Option<Span>,
    pub unsafe_: Option<Span>,
    pub name: Name,
    pub args: Vec<FunctionArg>,
    pub return_type: Option<Path>,
    pub span: Span,
}

/// An event declaration.
#[derive(Debug, Clone)]
pub struct Event {
    pub name: Name,
    pub fields: Vec<Field>,
    pub span: Span,
}

/// A contract definition.
#[derive(Debug, Clone)]
pub struct Contract {
    pub name: Name,
    pub fields: Vec<Field>,
    pub functions: Vec<Function>,
    pub events: Vec<Event>,
    pub span: Span,
}

/// A struct definition.
#[derive(Debug, Clone)]
pub struct Struct {
    pub name: Name,
    pub fields: Vec<Field>,
    pub functions: Vec<Function>,
    pub span: Span,
}

/// `type Name = T`.
#[derive(Debug, Clone)]
pub struct TypeAlias {
    pub name: Name,
    pub typ: Path,
    pub span: Span,
}

/// A constant initializer that needs no further evaluation.
#[derive(Debug, Clone, Copy, PartialEq, Eq, Structural)]
pub enum Expr {
    Num(u128),
    Bool(bool),
}

/// `const NAME: T = value`.
#[derive(Debug, Clone)]
pub struct ConstantDecl {
    pub name: Name,
    pub typ: Path,
    pub value: Expr,
    pub span: Span,
}

/// `use path` or `use path as alias`.
#[derive(Debug, Clone)]
pub struct Use {
    pub path: Path,
    pub alias: Option<Name>,
    pub span: Span,
}

/// `pragma <version requirement>`.
#[derive(Debug, Clone)]
pub struct Pragma {
    pub version_requirement: String,
    pub span: Span,
}

/// A top-level statement of a module.
#[derive(Debug, Clone)]
pub enum ModuleStmt {
    Pragma(Pragma),
    Use(Use),
    TypeAlias(TypeAlias),
    Contract(Contract),
    Struct(Struct),
    Function(Function),
    Constant(ConstantDecl),
    Event(Event),
}

/// A parsed module.
#[derive(Debug, Clone)]
pub struct Module {
    pub body: Vec<ModuleStmt>,
}

} // verus!
