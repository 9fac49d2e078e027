//! A small stack-based virtual machine over typed method descriptors.
//!
//! `ast` holds the type and method model, `descriptor` decodes compact type
//! signatures into that model, and `interp` runs a method's instructions.
pub mod ast;
pub mod descriptor;
pub mod interp;
