//! The middle end of a small Lisp-like language: a chain of tree
//! transformations that lowers a surface expression tree into a flat,
//! closure-converted program, plus a pretty printer, a reader for the surface
//! syntax, and a generator for C-like target code.

pub mod anormal;
pub mod ast;
pub mod closure;
pub mod codegen;
pub mod compl;
pub mod copyprop;
pub mod formatter;
pub mod knormal;
pub mod parse;
pub mod read;
pub mod util;

pub use ast::Expr;
pub use formatter::{PrettyFormatter, pretty_format, format_prog};
pub use parse::parse;
pub use read::read_string;
pub use util::NameGenerator;
