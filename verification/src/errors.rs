//! The error taxonomy of the binding generator.  Every failure is fatal
//! for the whole run: no partial output is ever produced.

use vstd::prelude::*;

verus! {

/// Why a run was refused.
#[derive(Clone, Copy, PartialEq, Eq, Structural, Debug)]
pub enum Error {
    /// A byte that no token can start with, or an unterminated string.
    Lex,
    /// A structural mismatch against the grammar of declarations.
    Parse,
    /// A positional argument marker that names no declared parameter.
    ParamRef,
    /// Two generic parameters introduced under the same name.
    BoundClash,
}

} // verus!
