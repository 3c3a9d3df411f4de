//! The structured failures of assembly and of execution.

use vstd::prelude::*;

use crate::token::TokenType;
use crate::vm::Opcode;

verus! {

/// The mathematical value of an assembly failure.
#[verifier::ext_equal]
pub enum AsmErrorV {
    /// A macro or constant name was defined twice.
    DuplicateDefinition { name: Seq<char> },
    /// No macro named `main` exists.
    MissingEntryPoint,
    /// A free identifier names neither a macro nor a constant.
    UnknownIdentifier { name: Seq<char> },
    /// A mnemonic that takes an operand is not followed by a usable literal;
    /// `pos` is the mnemonic's position in the token sequence.
    MalformedOperand { pos: int },
    /// A token of kind `kind` at position `pos` cannot stand where it does.
    UnexpectedToken { kind: TokenType, pos: int },
    /// Macro invocations still remain after as many single-level expansion
    /// passes as there are macros, so the invocations must be cyclic.
    CyclicMacroExpansion,
}

/// A failure of assembly: definition extraction, expansion, constant
/// substitution, or code generation.
#[derive(Clone, Debug, PartialEq, Eq)]
pub enum AsmError {
    /// A macro or constant name was defined twice.
    DuplicateDefinition { name: String },
    /// No macro named `main` exists.
    MissingEntryPoint,
    /// A free identifier names neither a macro nor a constant.
    UnknownIdentifier { name: String },
    /// A mnemonic that takes an operand is not followed by a usable literal;
    /// `pos` is the mnemonic's position in the token sequence.
    MalformedOperand { pos: usize },
    /// A token of kind `kind` at position `pos` cannot stand where it does.
    UnexpectedToken { kind: TokenType, pos: usize },
    /// Macro invocations still remain after as many single-level expansion
    /// passes as there are macros, so the invocations must be cyclic.
    ///
    /// Detecting the cycle instead of expanding without bound is a safety
    /// guarantee this crate adds.
    CyclicMacroExpansion,
}

impl View for AsmError {
    type V = AsmErrorV;

    open spec fn view(&self) -> AsmErrorV {
        match self {
            AsmError::DuplicateDefinition { name } => AsmErrorV::DuplicateDefinition {
                name: name@,
            },
            AsmError::MissingEntryPoint => AsmErrorV::MissingEntryPoint,
            AsmError::UnknownIdentifier { name } => AsmErrorV::UnknownIdentifier { name: name@ },
            AsmError::MalformedOperand { pos } => AsmErrorV::MalformedOperand { pos: *pos as int },
            AsmError::UnexpectedToken { kind, pos } => AsmErrorV::UnexpectedToken {
                kind: *kind,
                pos: *pos as int,
            },
            AsmError::CyclicMacroExpansion => AsmErrorV::CyclicMacroExpansion,
        }
    }
}

/// A failure of execution.
#[derive(Clone, Copy, Debug, PartialEq, Eq, Structural)]
pub enum VmError {
    /// The program holds no `Halt` opcode, or the program counter ran off
    /// the end of the program.
    MissingHalt,
    /// `opcode` needs `required` operands but the stack holds only
    /// `available`.
    StackUnderflow { opcode: Opcode, required: usize, available: usize },
    /// `Get` of a key the constant store does not hold.
    UnknownConstantKey { key: usize },
    /// `Jump` to a target outside the program.
    InvalidJumpTarget { target: usize },
    /// The step budget handed to `execute` ran out with the machine still
    /// running. The budget is a guard against runaway programs, added over
    /// the machine's own semantics.
    StepLimitExceeded,
}

} // verus!
