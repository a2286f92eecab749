//! The virtual machine: a flat byte memory, a sixteen-bit accumulator and
//! program counter, two arithmetic flags, and a call stack.

pub mod machine;
