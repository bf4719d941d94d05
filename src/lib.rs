//! A two-pass assembler for a small 8-bit machine: source text in, a flat
//! binary image out. The first pass reads statements and builds the symbol
//! table; the second emits bytes once every label is known.
pub mod compiler;
pub mod isa;
pub mod laws;
pub mod symbols;
pub mod text;
