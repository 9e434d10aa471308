//! Keys of the request-scoped context.
use vstd::prelude::*;

verus! {

/// A key under which middleware stores a value in a request's context.
pub trait Contextable {
    /// The text of the key.
    fn key(&self) -> &'static str;
}

/// Names a route handler where handlers are listed for debugging.
#[derive(Debug, Clone, Copy, PartialEq, Eq, Structural)]
pub struct DebuggableHandler;

impl DebuggableHandler {
    pub fn label(&self) -> (r: &'static str)
        ensures
            r@ == "<handler>"@,
    {
        "<handler>"
    }
}

} // verus!
