//! A statement tree for JavaScript programs: the host's own statements, as
//! far as instrumentation reads them, and the forms that generated code uses.
use vstd::prelude::*;

verus! {

/// A byte span of the host source. The all-zero span marks a node that has
/// no genuine source position, such as generated code.
#[derive(Clone, Copy, Debug, Default, PartialEq, Eq, Structural)]
pub struct Span {
    pub lo: u32,
    pub hi: u32,
}

impl Span {
    pub open spec fn spec_is_dummy(&self) -> bool {
        self.lo == 0 && self.hi == 0
    }

    /// The span of generated nodes.
    pub fn dummy() -> (r: Span)
        ensures
            r.spec_is_dummy(),
    {
        Span { lo: 0, hi: 0 }
    }

    pub fn is_dummy(&self) -> (r: bool)
        ensures
            r == self.spec_is_dummy(),
    {
        self.lo == 0 && self.hi == 0
    }
}

/// The key of an object-literal property.
#[derive(Clone, Debug, PartialEq)]
pub enum PropKey {
    /// `name: value`
    Ident(String),
    /// `"name": value`
    Str(String),
}

/// One `key: value` property of an object literal.
#[derive(Debug)]
pub struct Prop {
    pub key: PropKey,
    pub value: Expr,
}

/// The property part of a member expression.
#[derive(Debug)]
pub enum MemberProp {
    /// `obj.name`
    Ident(String),
    /// `obj[expr]`
    Computed(Box<Expr>),
}

#[derive(Clone, Copy, Debug, PartialEq, Eq, Structural)]
pub enum BinaryOp {
    /// `||`
    LogicalOr,
    /// `!==`
    StrictNotEq,
}

/// Expressions, as generated code uses them.
#[derive(Debug)]
pub enum Expr {
    Ident(String),
    Str(String),
    Num(u32),
    Object(Vec<Prop>),
    Member(Box<Expr>, MemberProp),
    Call(Box<Expr>, Vec<Expr>),
    New(Box<Expr>, Vec<Expr>),
    /// `target = value`
    Assign(Box<Expr>, Box<Expr>),
    Bin(BinaryOp, Box<Expr>, Box<Expr>),
    /// `!expr`
    Not(Box<Expr>),
    Paren(Box<Expr>),
    /// `expr++`
    PostIncrement(Box<Expr>),
    /// `function () { body }`
    Function(Vec<Stmt>),
}

/// A statement, or an item of a module's top level.
///
/// Host statements that carry nested statement lists without being one of
/// the forms below are `Other`: `node` identifies the host node, `scopes`
/// holds its nested statement lists (blocks, function bodies, callbacks) in
/// source order. Module declarations (imports, exports) are `ModuleDecl`.
#[derive(Debug)]
pub enum Stmt {
    Expr { span: Span, expr: Expr },
    /// `var name = init;`
    Var { span: Span, name: String, init: Expr },
    /// `if (test) { cons }`
    If { span: Span, test: Expr, cons: Vec<Stmt> },
    Block { span: Span, body: Vec<Stmt> },
    Return { span: Span, arg: Expr },
    /// `function name() { body }`
    FnDecl { span: Span, name: String, body: Vec<Stmt> },
    Other { span: Span, node: u32, scopes: Vec<Vec<Stmt>> },
    ModuleDecl { node: u32, scopes: Vec<Vec<Stmt>> },
}

/// A whole file: an ES module's items or a script's statements.
#[derive(Debug)]
pub enum Program {
    Module(Vec<Stmt>),
    Script(Vec<Stmt>),
}

impl Stmt {
    /// The statement's span; module declarations are not statements and have none.
    pub open spec fn spec_span(&self) -> Option<Span> {
        match self {
            Stmt::Expr { span, .. } => Some(*span),
            Stmt::Var { span, .. } => Some(*span),
            Stmt::If { span, .. } => Some(*span),
            Stmt::Block { span, .. } => Some(*span),
            Stmt::Return { span, .. } => Some(*span),
            Stmt::FnDecl { span, .. } => Some(*span),
            Stmt::Other { span, .. } => Some(*span),
            Stmt::ModuleDecl { .. } => None,
        }
    }

    pub fn span(&self) -> (r: Option<Span>)
        ensures
            r == self.spec_span(),
    {
        match self {
            Stmt::Expr { span, .. } => Some(*span),
            Stmt::Var { span, .. } => Some(*span),
            Stmt::If { span, .. } => Some(*span),
            Stmt::Block { span, .. } => Some(*span),
            Stmt::Return { span, .. } => Some(*span),
            Stmt::FnDecl { span, .. } => Some(*span),
            Stmt::Other { span, .. } => Some(*span),
            Stmt::ModuleDecl { .. } => None,
        }
    }

    /// A directive: an expression statement made of a string literal alone.
    pub open spec fn spec_is_directive(&self) -> bool {
        self matches Stmt::Expr { expr, .. } && expr is Str
    }

    pub fn is_directive(&self) -> (r: bool)
        ensures
            r == self.spec_is_directive(),
    {
        match self {
            Stmt::Expr { expr: Expr::Str(_), .. } => true,
            _ => false,
        }
    }

    /// A statement without a genuine source position.
    pub open spec fn spec_is_synthetic(&self) -> bool {
        match self.spec_span() {
            Some(span) => span.spec_is_dummy(),
            None => false,
        }
    }

    pub fn is_synthetic(&self) -> (r: bool)
        ensures
            r == self.spec_is_synthetic(),
    {
        match self.span() {
            Some(span) => span.is_dummy(),
            None => false,
        }
    }
}

} // verus!
