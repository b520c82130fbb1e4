//! Statement-coverage instrumentation over a JavaScript statement tree.
//!
//! The crate assigns sequential identifiers to the statements of a file,
//! records their source ranges in a ledger, splices counter increments in
//! front of them, and generates the runtime bootstrap that registers the
//! coverage record under the global `__coverage__` key.
pub mod ast;
pub mod coverage_template;
pub mod coverage_visitor;
pub mod decimal;
pub mod digest;
pub mod source_coverage;
pub mod transform;

pub use ast::{BinaryOp, Expr, MemberProp, Program, Prop, PropKey, Span, Stmt};
pub use coverage_template::create_coverage_init_stmts;
pub use coverage_visitor::{create_coverage_instrumentation_visitor, CoverageVisitor};
pub use source_coverage::{Location, Range, SourceCoverage};
pub use transform::{Config, TransformVisitor};
