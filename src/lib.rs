//! A compiler for a small subset of C: one `int` function whose body is a
//! single `return` of an integer expression, compiled to x86 assembly text.
pub mod compiler;
