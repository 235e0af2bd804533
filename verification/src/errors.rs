//! Structured assembly errors.
//!
//! Every failure of the preprocessor or the encoder is one of these
//! variants; each carries the token or line it is about.

use vstd::prelude::*;

verus! {

/// Mathematical model of an assembly error, over character sequences.
pub enum ErrS {
    /// A mnemonic (or mnemonic/arity/shape combination) with no encoding.
    UnknownInstruction(Seq<char>),
    /// A token that is not a valid register name.
    InvalidRegister(Seq<char>),
    /// A token that is not a valid numeric literal.
    InvalidNumber(Seq<char>),
    /// A label-as-data reference to a name with no jump label.
    UnknownLabel(Seq<char>),
    /// A mnemonic applied to an operand it does not accept (mnemonic, token).
    IllegalOperand(Seq<char>, Seq<char>),
    /// A directive line with the wrong number of tokens.
    MalformedDirective(Seq<char>),
    /// The assembled program does not fit the 12-bit address space.
    ProgramTooLarge,
}

/// An assembly error, as produced by the executable functions.
#[derive(Debug)]
pub enum AsmError {
    /// A mnemonic (or mnemonic/arity/shape combination) with no encoding.
    UnknownInstruction(Vec<char>),
    /// A token that is not a valid register name.
    InvalidRegister(Vec<char>),
    /// A token that is not a valid numeric literal.
    InvalidNumber(Vec<char>),
    /// A label-as-data reference to a name with no jump label.
    UnknownLabel(Vec<char>),
    /// A mnemonic applied to an operand it does not accept (mnemonic, token).
    IllegalOperand(Vec<char>, Vec<char>),
    /// A directive line with the wrong number of tokens.
    MalformedDirective(Vec<char>),
    /// The assembled program does not fit the 12-bit address space.
    ProgramTooLarge,
}

impl View for AsmError {
    type V = ErrS;

    open spec fn view(&self) -> ErrS {
        match self {
            AsmError::UnknownInstruction(t) => ErrS::UnknownInstruction(t@),
            AsmError::InvalidRegister(t) => ErrS::InvalidRegister(t@),
            AsmError::InvalidNumber(t) => ErrS::InvalidNumber(t@),
            AsmError::UnknownLabel(t) => ErrS::UnknownLabel(t@),
            AsmError::IllegalOperand(m, t) => ErrS::IllegalOperand(m@, t@),
            AsmError::MalformedDirective(l) => ErrS::MalformedDirective(l@),
            AsmError::ProgramTooLarge => ErrS::ProgramTooLarge,
        }
    }
}

impl AsmError {
    /// A short fixed description of the error kind.
    pub fn kind_name(&self) -> (r: &'static str)
    {
        match self {
            AsmError::UnknownInstruction(_) => "unknown instruction",
            AsmError::InvalidRegister(_) => "invalid register",
            AsmError::InvalidNumber(_) => "invalid number",
            AsmError::UnknownLabel(_) => "unknown label",
            AsmError::IllegalOperand(_, _) => "illegal operand",
            AsmError::MalformedDirective(_) => "malformed directive",
            AsmError::ProgramTooLarge => "program too large",
        }
    }

    /// The token or line the error is about, where it carries one.
    pub fn subject(&self) -> (r: Option<&Vec<char>>)
        ensures
            match self@ {
                ErrS::UnknownInstruction(t) => r is Some && r->0@ == t,
                ErrS::InvalidRegister(t) => r is Some && r->0@ == t,
                ErrS::InvalidNumber(t) => r is Some && r->0@ == t,
                ErrS::UnknownLabel(t) => r is Some && r->0@ == t,
                ErrS::IllegalOperand(_, t) => r is Some && r->0@ == t,
                ErrS::MalformedDirective(l) => r is Some && r->0@ == l,
                ErrS::ProgramTooLarge => r is None,
            },
    {
        match self {
            AsmError::UnknownInstruction(t) => Some(t),
            AsmError::InvalidRegister(t) => Some(t),
            AsmError::InvalidNumber(t) => Some(t),
            AsmError::UnknownLabel(t) => Some(t),
            AsmError::IllegalOperand(_, t) => Some(t),
            AsmError::MalformedDirective(l) => Some(l),
            AsmError::ProgramTooLarge => None,
        }
    }
}

} // verus!
