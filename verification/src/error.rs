use vstd::prelude::*;

verus! {

/// Every fatal condition the runtime can report.  Load-time errors come from
/// linking a class file, link-time errors from symbolic resolution, and the
/// rest from executing bytecode.  The interpreter never recovers from any of
/// these; they are surfaced to the embedder as the result of the run.
#[derive(Debug, Clone, PartialEq, Eq)]
pub enum VmError {
    /// A class name could not be resolved in the method area.
    ClassNotFound(String),
    /// Bad magic, unsupported version, or a malformed structure in a class file.
    ClassFormatError,
    /// An attempt to define a second class under an already-taken name.
    LinkageError,
    /// A class that lists itself as one of its own interfaces.
    ClassCircularityError,
    NoSuchMethodError,
    NoSuchFieldError,
    NullPointerException,
    ArrayIndexOutOfBounds,
    NegativeArraySize,
    ClassCastException,
    /// Integer division or remainder by zero.
    ArithmeticException,
    /// An operand-stack pop from an empty stack: an invariant violation.
    StackUnderflow,
    /// The interpreter exhausted its step budget or frame budget.
    StackOverflow,
    /// An operand or local with a tag the current opcode cannot accept.
    InvalidType,
    /// A native method with no entry in the built-in native table.
    UnknownNative,
    /// An opcode or constant-pool shape outside the supported subset.
    Unsupported,
    /// An allocation request whose byte size cannot be represented.
    OutOfMemory,
}

} // verus!
