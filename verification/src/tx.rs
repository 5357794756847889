//! The transaction context the interpreter evaluates against, and the
//! two external interfaces it consumes: a sighash-preimage source and an
//! ECC verifier. Both are traits this crate's users implement; the
//! interpreter states what it does with every possible answer.

use vstd::prelude::*;
use crate::error::EccError;
use crate::script::Script;

verus! {

/// The sighash flag assumed when a signature is empty.
pub const SIGHASH_DEFAULT: u32 = 0x41;

/// Supplies, per input and per sighash flag, the serialized signature
/// preimage of the transaction. The concrete sighash algorithm is
/// outside this crate; nothing is assumed of the bytes returned.
pub trait SighashSource {
    fn preimage_ser(&self, input_idx: usize, flag: u32) -> Vec<u8>;
}

/// Verifies a signature over a message against a public key. The
/// concrete signature schemes are outside this crate; nothing is assumed
/// of the verdict.
pub trait Ecc {
    fn verify(&self, pubkey: &Vec<u8>, msg: &Vec<u8>, sig: &Vec<u8>) -> Result<bool, EccError>;
}

/// A reference to the output an input spends.
#[derive(Debug, PartialEq)]
pub struct TxOutpoint {
    pub tx_hash: Vec<u8>,
    pub vout: u32,
}

/// One transaction input: the unlocking script it supplies and, when the
/// spent output is known, the lock script to evaluate and whether it is
/// a pay-to-script-hash spend.
#[derive(Debug, PartialEq)]
pub struct TxInput {
    pub prev_out: TxOutpoint,
    pub script: Script,
    pub sequence: u32,
    pub lock_script: Option<Script>,
    pub is_p2sh: Option<bool>,
    pub value: Option<u64>,
}

/// One transaction output.
#[derive(Debug, PartialEq)]
pub struct TxOutput {
    pub value: u64,
    pub script: Script,
}

/// A hashed transaction: the read-only context one evaluation runs in,
/// together with its sighash-preimage source.
pub struct Tx<P: SighashSource> {
    pub version: i32,
    pub lock_time: u32,
    pub inputs: Vec<TxInput>,
    pub outputs: Vec<TxOutput>,
    pub sighash: P,
}

} // verus!
