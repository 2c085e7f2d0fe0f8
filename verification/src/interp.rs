//! The interpreter boundary.  The foreign interpreter itself stands
//! outside this crate; what remains here is the calling discipline
//! around a body run under a catch of every signal key.

use vstd::prelude::*;

use crate::scm::{ListSpec, Scm, SymbolSpec, TypeSpec};

verus! {

/// The interpreter's entry points.
pub struct Guile {
}

impl Guile {
    /// Runs the body under a catch of the given signal key.  A
    /// successful run returns what the body returned; an interrupted
    /// one carries the signal's key and argument list.  Within this
    /// crate no foreign signal can arise, so the body's own contract
    /// carries over to the result.
    pub fn call_with_catch<RT: TypeSpec, F: FnOnce(A) -> Scm<RT>, A>(
        key: Scm<SymbolSpec>,
        body: F,
        body_args: A,
    ) -> (r: Result<Scm<RT>, (Scm<SymbolSpec>, Scm<ListSpec>)>)
        requires
            body.requires((body_args,)),
        ensures
            r matches Ok(v) ==> body.ensures((body_args,), v),
    {
        let _ = key;
        Ok(body(body_args))
    }

    /// Runs the body under a catch of every signal key.  A successful
    /// run returns what the body returned; an interrupted one carries
    /// the signal's key and argument list.  Within this crate no
    /// foreign signal can arise, so the body's own contract carries
    /// over to the result.
    pub fn call_with_catch_all<RT: TypeSpec, F: FnOnce(A) -> Scm<RT>, A>(
        body: F,
        body_args: A,
    ) -> (r: Result<Scm<RT>, (Scm<SymbolSpec>, Scm<ListSpec>)>)
        requires
            body.requires((body_args,)),
        ensures
            r matches Ok(v) ==> body.ensures((body_args,), v),
    {
        Ok(body(body_args))
    }
}

} // verus!
