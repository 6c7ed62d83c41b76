//! Compile-time style token rewriting: placeholders written `#name` in a body
//! token stream are replaced by identifiers synthesized from string-valued
//! declarations, preserving the body's structure and source spans.
//!
//! The input is a declaration list (`#name = value`, comma-separated, closed
//! by `=>`) followed by the body. A value is either the absent sentinel
//! `None`, requesting literal pass-through of the placeholder, or a
//! string-producing expression: a string literal, a concatenation, the
//! canonical spelling of raw tokens, an environment lookup, or file
//! inclusion. The driver evaluates the declarations, validates each resolved
//! string as an identifier, rewrites the body, and appends one
//! `compile_error` invocation per diagnostic.

pub mod tokens;
pub mod values;
pub mod rewrite;
pub mod outside;
pub mod text;
pub mod parse;
pub mod eval;
pub mod driver;

pub use driver::ident_str;
pub use eval::Resources;
pub use tokens::{Delim, Spacing, Token};
pub use values::Value;
