//! The ways a transformation can fail. Every failure is a compile-time
//! diagnostic for the annotation site; there is no partial success and no
//! runtime error path, because the engine produces source text, not behavior.

use vstd::prelude::*;

verus! {

#[derive(Clone, Copy, PartialEq, Eq, Structural, Debug)]
pub enum TransformError {
    /// The annotation's argument is malformed: it is not an identifier
    /// optionally followed by member/method access and an optional trailing
    /// suspension marker.
    ArgumentParse,
    /// The annotated item is some other kind of declaration, not a function.
    NotAFunction,
    /// The assembled result is not valid syntax in its context: the guard
    /// statement would suspend inside a non-asynchronous function, or the
    /// emitted output failed the defensive re-parse.
    ReinjectionParse,
}

} // verus!
