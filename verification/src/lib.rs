//! Core model of a cooperative Lua-family scripting runtime: a task
//! scheduler that interleaves script threads with native asynchronous
//! work, and a module-resolution (`require`) subsystem with a cache
//! that guarantees at-most-once execution per canonical module key.

use vstd::prelude::*;

pub mod cache;
pub mod convert;
pub mod errors;
pub mod globals;
pub mod luau;
pub mod require;
pub mod resolve;
pub mod scheduler;

verus! {

/// A plain script-level value, as seen at the boundary between the
/// scheduler model and the virtual machine.
#[derive(Clone, PartialEq, Eq, Debug)]
pub enum ScriptValue {
    Nil,
    Bool(bool),
    Int(i64),
    Str(String),
}

/// An equal copy of a string (`String::clone`, which keeps the view).
pub fn clone_string(s: &String) -> (r: String)
    ensures
        r == *s,
{
    s.clone()
}

impl ScriptValue {
    /// An equal copy of this value.
    pub fn dup(&self) -> (r: ScriptValue)
        ensures
            r == *self,
    {
        match self {
            ScriptValue::Nil => ScriptValue::Nil,
            ScriptValue::Bool(b) => ScriptValue::Bool(*b),
            ScriptValue::Int(i) => ScriptValue::Int(*i),
            ScriptValue::Str(s) => ScriptValue::Str(clone_string(s)),
        }
    }
}

/// Appends one character to a string.
///
/// Relies on `String::push`: pushes the given `char` onto the end of
/// the string.
#[verifier::external_body]
pub(crate) fn push_char(s: &mut String, c: char)
    ensures
        final(s)@ == old(s)@.push(c),
{
    s.push(c)
}

} // verus!
