//! The closed error taxonomy of the interpreter, and the error surface
//! of the ECC verifier it delegates signature checks to.

use vstd::prelude::*;
use crate::script::Opcode;
use crate::value::{ByteArray, ByteArrayV, Integer, IntegerError};

verus! {

/// What an ECC verifier may report instead of a verdict.
#[derive(Debug, PartialEq)]
pub enum EccError {
    InvalidPubkey,
    InvalidSignatureFormat,
    Other(String),
}

/// The mathematical image of an ECC error.
pub enum EccErrorV {
    InvalidPubkey,
    InvalidSignatureFormat,
    Other(Seq<char>),
}

impl View for EccError {
    type V = EccErrorV;

    open spec fn view(&self) -> EccErrorV {
        match self {
            EccError::InvalidPubkey => EccErrorV::InvalidPubkey,
            EccError::InvalidSignatureFormat => EccErrorV::InvalidSignatureFormat,
            EccError::Other(s) => EccErrorV::Other(s@),
        }
    }
}

/// Everything that can abort a step. Each variant carries enough context
/// to render a one-line diagnostic.
#[derive(Debug, PartialEq)]
pub enum ScriptError {
    InvalidPubKey(ByteArray),
    InvalidSignatureFormat(ByteArray),
    InvalidSignature(ByteArray, ByteArray),
    EqualVerifyFailed(ByteArray, ByteArray),
    VerifyFailed,
    NotImplemented,
    ScriptFinished,
    InvalidDataType,
    StackEmpty,
    OpcodeMsg(Opcode, String),
    UnbalancedConditionals(Opcode),
    InvalidOpcode(u8),
    InvalidDepth(Integer),
    InvalidInteger(IntegerError),
    InvalidConversion,
}

/// The mathematical image of a script error.
pub enum ErrV {
    InvalidPubKey(ByteArrayV),
    InvalidSignatureFormat(ByteArrayV),
    InvalidSignature(ByteArrayV, ByteArrayV),
    EqualVerifyFailed(ByteArrayV, ByteArrayV),
    VerifyFailed,
    NotImplemented,
    ScriptFinished,
    InvalidDataType,
    StackEmpty,
    OpcodeMsg(Opcode, Seq<char>),
    UnbalancedConditionals(Opcode),
    InvalidOpcode(u8),
    InvalidDepth(int),
    InvalidInteger,
    InvalidConversion,
}

impl View for ScriptError {
    type V = ErrV;

    open spec fn view(&self) -> ErrV {
        match self {
            ScriptError::InvalidPubKey(a) => ErrV::InvalidPubKey(a@),
            ScriptError::InvalidSignatureFormat(a) => ErrV::InvalidSignatureFormat(a@),
            ScriptError::InvalidSignature(a, b) => ErrV::InvalidSignature(a@, b@),
            ScriptError::EqualVerifyFailed(a, b) => ErrV::EqualVerifyFailed(a@, b@),
            ScriptError::VerifyFailed => ErrV::VerifyFailed,
            ScriptError::NotImplemented => ErrV::NotImplemented,
            ScriptError::ScriptFinished => ErrV::ScriptFinished,
            ScriptError::InvalidDataType => ErrV::InvalidDataType,
            ScriptError::StackEmpty => ErrV::StackEmpty,
            ScriptError::OpcodeMsg(op, m) => ErrV::OpcodeMsg(*op, m@),
            ScriptError::UnbalancedConditionals(op) => ErrV::UnbalancedConditionals(*op),
            ScriptError::InvalidOpcode(b) => ErrV::InvalidOpcode(*b),
            ScriptError::InvalidDepth(d) => ErrV::InvalidDepth(d@),
            ScriptError::InvalidInteger(_) => ErrV::InvalidInteger,
            ScriptError::InvalidConversion => ErrV::InvalidConversion,
        }
    }
}

impl ScriptError {
    /// A short description of the error kind, for diagnostics.
    pub fn title(&self) -> String {
        match self {
            ScriptError::InvalidPubKey(_) => "Invalid public key".to_owned(),
            ScriptError::InvalidSignatureFormat(_) => "Invalid signature format".to_owned(),
            ScriptError::InvalidSignature(_, _) => "Invalid signature".to_owned(),
            ScriptError::EqualVerifyFailed(_, _) => "OP_EQUALVERIFY failed".to_owned(),
            ScriptError::VerifyFailed => "OP_VERIFY failed".to_owned(),
            ScriptError::NotImplemented => "Opcode not implemented".to_owned(),
            ScriptError::ScriptFinished => "Script finished".to_owned(),
            ScriptError::InvalidDataType => "Invalid data type for operation".to_owned(),
            ScriptError::StackEmpty => "Stack empty".to_owned(),
            ScriptError::OpcodeMsg(_, _) => "Opcode failed".to_owned(),
            ScriptError::UnbalancedConditionals(_) => "Unbalanced conditionals".to_owned(),
            ScriptError::InvalidOpcode(_) => "Invalid opcode".to_owned(),
            ScriptError::InvalidDepth(_) => "Invalid depth".to_owned(),
            ScriptError::InvalidInteger(_) => "Invalid integer".to_owned(),
            ScriptError::InvalidConversion => "Invalid conversion".to_owned(),
        }
    }
}

} // verus!
