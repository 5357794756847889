//! An interpreter for the Bitcoin Cash script language: a deterministic,
//! step-executable stack machine that evaluates a lock script against an
//! unlocking script in the context of a transaction input.
//!
//! The value domain (integers, booleans, byte arrays), the minimally-encoded
//! integer codec, the two-stack machine with nested conditional execution,
//! and the per-opcode semantics are all specified and verified here.
//! Cryptographic digests and signature checks are delegated to outside code
//! behind narrow, explicitly trusted interfaces.

pub mod encoding;
pub mod error;
pub mod hashes;
pub mod interpreter;
pub mod laws;
pub mod script;
pub mod semantics;
pub mod tx;
pub mod value;

pub use error::ScriptError;
pub use interpreter::ScriptInterpreter;
pub use script::{Op, Opcode, Script, TaggedOp};
pub use tx::{Ecc, SighashSource, Tx, TxInput, TxOutpoint, TxOutput};
pub use value::{ByteArray, Integer, StackItem, StackItemDelta, StackValue};
