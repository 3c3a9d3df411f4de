//! A miniature stack-language toolchain: a lexer, a macro- and
//! constant-expanding assembler, and a stack-machine interpreter whose
//! numeric values are IEEE-754 double-precision bit patterns.

pub mod assembler;
pub mod errors;
pub mod numeric;
pub mod token;
pub mod vm;
