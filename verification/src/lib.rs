//! An interpreter for the JVM class-file format and bytecode instruction set.
//!
//! Class files are decoded into an in-memory model (`class_file`), linked into
//! a process-wide method area (`method_area`), and executed by a bytecode
//! interpreter (`interp`) over a managed heap (`heap`).  Field and method
//! signatures are described by descriptor trees (`descriptor`), and runtime
//! values by a tagged union (`value`).  Floating-point values travel through
//! the interpreter as IEEE 754 bit patterns; the arithmetic on them lives in
//! `floats`.

pub mod class_file;
pub mod descriptor;
pub mod error;
pub mod floats;
pub mod heap;
pub mod interp;
pub mod method_area;
pub mod text;
pub mod value;
