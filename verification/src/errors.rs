//! The recoverable error taxonomy exposed to callers, and the status
//! codes through which the machine reports the outcome of a compile or
//! of a protected call.
//!
//! An unrecoverable allocation failure inside the machine is the one
//! fatal condition; it never reaches this taxonomy, and the verified
//! functions exclude the corresponding status code in their `requires`.

use vstd::prelude::*;

verus! {

/// The machine reports success of a compile or of a protected call.
pub const STATUS_OK: i32 = 0;

/// The machine reports a runtime failure inside a protected call.
pub const LUA_ERRRUN: i32 = 2;

/// The machine reports a compile-time diagnostic.
pub const LUA_ERRSYNTAX: i32 = 3;

/// The machine reports allocation exhaustion: fatal, never recovered.
pub const LUA_ERRMEM: i32 = 4;

/// A failure of the host byte stream feeding a chunk load.
#[derive(Clone, Copy, Debug, PartialEq, Eq, Structural)]
pub struct StreamError {
    pub code: u32,
}

impl StreamError {
    pub fn new(code: u32) -> (r: StreamError)
        ensures
            r.code == code,
    {
        StreamError { code }
    }
}

/// A recoverable marshaling failure.
#[derive(Debug)]
pub enum LuaError {
    /// A runtime failure during a protected call, carrying the
    /// diagnostic the machine left on the stack.
    ExecutionError(Vec<u8>),
    /// A compile-time diagnostic, carrying the message the machine left
    /// on the stack.
    SyntaxError(Vec<u8>),
    /// A failure of the host byte stream during chunk loading, wrapping
    /// the underlying error.
    ReadError(StreamError),
    /// A stack slot did not hold a value of the requested shape.
    WrongType,
}

} // verus!
