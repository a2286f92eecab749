//! A toolchain for a small 16-bit accumulator machine: a compiler from a tiny
//! imperative language to textual assembly, an assembler from assembly to
//! fixed-width three-byte instruction records, and a virtual machine that
//! executes those records.

pub mod assembler;
pub mod compiler;
pub mod machine;
pub mod numerals;
pub mod text;
