use vstd::prelude::*;

verus! {

/// The kind of a [`crate::value::Value`], used to describe what a path or a
/// loop met where it expected something else.
#[derive(Clone, Copy, Debug, PartialEq, Eq, Structural)]
pub enum ValueKind {
    Null,
    Bool,
    Number,
    String,
    Array,
    Object,
}

/// Everything that can go wrong while compiling or rendering a template.
#[derive(Clone, Debug, PartialEq, Eq)]
pub enum Error {
    /// A marker opened at `offset` (in characters) is never closed.
    Unterminated { offset: usize },
    /// A value expression or a block tag at `offset` is empty or malformed.
    Malformed { offset: usize },
    /// A closing or `else` tag at `offset` has no construct it could belong to.
    Unmatched { offset: usize },
    /// The construct opened at `offset` is still open at the end of the text.
    Unclosed { offset: usize },
    /// No template is registered under `name`.
    UnknownTemplate { name: String },
    /// The path segment `segment` could not be resolved on a value of kind `kind`.
    PathNotFound { segment: String, kind: ValueKind },
    /// A loop was asked to iterate over a value of kind `kind`.
    NotIterable { kind: ValueKind },
    /// No formatter is registered under `name`.
    UnknownFormatter { name: String },
    /// A built-in formatter cannot print a value of kind `kind`.
    Unprintable { kind: ValueKind },
    /// A formatter supplied by the caller failed with this message.
    FormatterFailed { msg: String },
    /// The instruction at `pc` breaks the structure that compiled code has.
    BrokenProgram { pc: usize },
}

} // verus!
