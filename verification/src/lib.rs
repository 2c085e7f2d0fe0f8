//! A binding generator for an untyped foreign handle API.
//!
//! The crate reads a small declarative language in which each line declares
//! one strongly typed wrapper over an untyped foreign call, and emits the
//! corresponding function definitions.  The pipeline is: lexing the input
//! bytes into tokens, parsing declarations, expanding the `@` argument
//! markers, resolving rest arguments, and rendering generated functions
//! back to text.

#![verifier::loop_isolation(false)]

pub mod binder;
pub mod codegen;
pub mod driver;
pub mod errors;
pub mod grammar;
pub mod interp;
pub mod parse;
pub mod preproc;
pub mod scm;
pub mod tokens;

pub use interp::Guile;
pub use scm::Scm;
pub use scm::TryAs;
