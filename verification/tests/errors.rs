use iguana::error::ScriptError;
use iguana::interpreter::ScriptInterpreter;
use iguana::script::{Op, Opcode, Script, TaggedOp};
use iguana::error::EccError;
use iguana::tx::{Ecc, SighashSource, Tx, TxInput, TxOutpoint};
use iguana::value::{ByteArray, Integer};

struct NullSighash;

impl SighashSource for NullSighash {
    fn preimage_ser(&self, _input_idx: usize, _flag: u32) -> Vec<u8> {
        Vec::new()
    }
}

enum EccBehavior {
    Verdict(bool),
    BadPubkey,
    BadFormat,
    Broken,
}

struct ScriptedEcc(EccBehavior);

impl Ecc for ScriptedEcc {
    fn verify(&self, _pubkey: &Vec<u8>, _msg: &Vec<u8>, _sig: &Vec<u8>) -> Result<bool, EccError> {
        match self.0 {
            EccBehavior::Verdict(b) => Ok(b),
            EccBehavior::BadPubkey => Err(EccError::InvalidPubkey),
            EccBehavior::BadFormat => Err(EccError::InvalidSignatureFormat),
            EccBehavior::Broken => Err(EccError::Other("backend failure".to_owned())),
        }
    }
}

fn interp_for(
    ops: Vec<TaggedOp>,
    ecc: ScriptedEcc,
) -> ScriptInterpreter<ScriptedEcc, NullSighash> {
    let tx = Tx {
        version: 1,
        lock_time: 0,
        inputs: vec![TxInput {
            prev_out: TxOutpoint { tx_hash: Vec::new(), vout: 0 },
            script: Script::new(Vec::new()),
            sequence: 0xffff_ffff,
            lock_script: Some(Script::new(ops)),
            is_p2sh: Some(false),
            value: None,
        }],
        outputs: Vec::new(),
        sighash: NullSighash,
    };
    ScriptInterpreter::new(tx, 0, ecc)
}

fn push_int(v: i64) -> TaggedOp {
    TaggedOp::bare(Op::PushInteger(Integer::new(v).unwrap()))
}

fn push_bytes(data: Vec<u8>) -> TaggedOp {
    TaggedOp::bare(Op::PushByteArray { array: ByteArray::from_data(data), is_minimal: true })
}

fn code(c: Opcode) -> TaggedOp {
    TaggedOp::bare(Op::Code(c))
}

fn expect_error(ops: Vec<TaggedOp>, ecc: ScriptedEcc) -> ScriptError {
    interp_for(ops, ecc).run().unwrap_err()
}

#[test]
fn stack_empty_on_pop() {
    match expect_error(vec![code(Opcode::OP_ADD)], ScriptedEcc(EccBehavior::Verdict(true))) {
        ScriptError::StackEmpty => {},
        other => panic!("expected StackEmpty, got {:?}", other),
    }
}

#[test]
fn invalid_data_type_on_bool_pop() {
    match expect_error(
        vec![push_bytes(vec![1]), code(Opcode::OP_NOT)],
        ScriptedEcc(EccBehavior::Verdict(true)),
    ) {
        ScriptError::InvalidDataType => {},
        other => panic!("expected InvalidDataType, got {:?}", other),
    }
}

#[test]
fn invalid_opcode_carries_byte() {
    match expect_error(
        vec![TaggedOp::bare(Op::Invalid(0xfe))],
        ScriptedEcc(EccBehavior::Verdict(true)),
    ) {
        ScriptError::InvalidOpcode(b) => assert_eq!(b, 0xfe),
        other => panic!("expected InvalidOpcode, got {:?}", other),
    }
}

#[test]
fn not_implemented_opcode() {
    match expect_error(
        vec![push_int(1), code(Opcode::OP_NOP)],
        ScriptedEcc(EccBehavior::Verdict(true)),
    ) {
        ScriptError::NotImplemented => {},
        other => panic!("expected NotImplemented, got {:?}", other),
    }
}

#[test]
fn script_finished_past_end() {
    let mut it = interp_for(vec![push_int(1)], ScriptedEcc(EccBehavior::Verdict(true)));
    assert!(it.run_next_op().is_ok());
    assert!(it.is_finished());
    match it.run_next_op() {
        Err(ScriptError::ScriptFinished) => {},
        other => panic!("expected ScriptFinished, got {:?}", other),
    }
}

#[test]
fn unbalanced_else() {
    match expect_error(vec![code(Opcode::OP_ELSE)], ScriptedEcc(EccBehavior::Verdict(true))) {
        ScriptError::UnbalancedConditionals(Opcode::OP_ELSE) => {},
        other => panic!("expected UnbalancedConditionals, got {:?}", other),
    }
}

#[test]
fn unbalanced_endif() {
    match expect_error(vec![code(Opcode::OP_ENDIF)], ScriptedEcc(EccBehavior::Verdict(true))) {
        ScriptError::UnbalancedConditionals(Opcode::OP_ENDIF) => {},
        other => panic!("expected UnbalancedConditionals, got {:?}", other),
    }
}

#[test]
fn verify_fails_on_false() {
    match expect_error(
        vec![push_int(0), code(Opcode::OP_VERIFY)],
        ScriptedEcc(EccBehavior::Verdict(true)),
    ) {
        ScriptError::VerifyFailed => {},
        other => panic!("expected VerifyFailed, got {:?}", other),
    }
}

#[test]
fn equalverify_carries_operands() {
    match expect_error(
        vec![push_bytes(vec![1]), push_bytes(vec![2]), code(Opcode::OP_EQUALVERIFY)],
        ScriptedEcc(EccBehavior::Verdict(true)),
    ) {
        ScriptError::EqualVerifyFailed(first, second) => {
            assert_eq!(first.data, vec![2]);
            assert_eq!(second.data, vec![1]);
        },
        other => panic!("expected EqualVerifyFailed, got {:?}", other),
    }
}

#[test]
fn invalid_depth_on_deep_pick() {
    match expect_error(
        vec![push_int(1), push_int(5), code(Opcode::OP_PICK)],
        ScriptedEcc(EccBehavior::Verdict(true)),
    ) {
        ScriptError::InvalidDepth(d) => assert_eq!(d.value, 5),
        other => panic!("expected InvalidDepth, got {:?}", other),
    }
}

#[test]
fn invalid_integer_on_overflow() {
    match expect_error(
        vec![push_int(0x7fff_ffff_ffff_ffff), code(Opcode::OP_1ADD)],
        ScriptedEcc(EccBehavior::Verdict(true)),
    ) {
        ScriptError::InvalidInteger(_) => {},
        other => panic!("expected InvalidInteger, got {:?}", other),
    }
}

#[test]
fn invalid_conversion_on_negative_split() {
    match expect_error(
        vec![push_bytes(vec![1, 2]), push_int(-1), code(Opcode::OP_SPLIT)],
        ScriptedEcc(EccBehavior::Verdict(true)),
    ) {
        ScriptError::InvalidConversion => {},
        other => panic!("expected InvalidConversion, got {:?}", other),
    }
}

#[test]
fn bitwise_length_mismatch() {
    match expect_error(
        vec![push_bytes(vec![1]), push_bytes(vec![2, 3]), code(Opcode::OP_XOR)],
        ScriptedEcc(EccBehavior::Verdict(true)),
    ) {
        ScriptError::OpcodeMsg(Opcode::OP_AND, msg) => {
            assert_eq!(msg, "Byte arrays have unequal length");
        },
        other => panic!("expected OpcodeMsg(OP_AND, ..), got {:?}", other),
    }
}

#[test]
fn modulo_by_zero() {
    match expect_error(
        vec![push_int(5), push_int(0), code(Opcode::OP_MOD)],
        ScriptedEcc(EccBehavior::Verdict(true)),
    ) {
        ScriptError::OpcodeMsg(Opcode::OP_MOD, msg) => assert_eq!(msg, "Modulo by 0"),
        other => panic!("expected OpcodeMsg(OP_MOD, ..), got {:?}", other),
    }
}

#[test]
fn ecc_invalid_pubkey_maps() {
    match expect_error(
        vec![push_bytes(vec![0x30, 0x41]), push_bytes(vec![0x02]), code(Opcode::OP_CHECKSIG)],
        ScriptedEcc(EccBehavior::BadPubkey),
    ) {
        ScriptError::InvalidPubKey(pk) => assert_eq!(pk.data, vec![0x02]),
        other => panic!("expected InvalidPubKey, got {:?}", other),
    }
}

#[test]
fn ecc_invalid_format_maps() {
    match expect_error(
        vec![push_bytes(vec![0x30, 0x41]), push_bytes(vec![0x02]), code(Opcode::OP_CHECKSIG)],
        ScriptedEcc(EccBehavior::BadFormat),
    ) {
        ScriptError::InvalidSignatureFormat(sig) => assert_eq!(sig.data, vec![0x30]),
        other => panic!("expected InvalidSignatureFormat, got {:?}", other),
    }
}

#[test]
fn ecc_other_error_maps_to_opcode_msg() {
    match expect_error(
        vec![push_bytes(vec![0x30, 0x41]), push_bytes(vec![0x02]), code(Opcode::OP_CHECKSIG)],
        ScriptedEcc(EccBehavior::Broken),
    ) {
        ScriptError::OpcodeMsg(Opcode::OP_CHECKSIG, msg) => assert_eq!(msg, "backend failure"),
        other => panic!("expected OpcodeMsg(OP_CHECKSIG, ..), got {:?}", other),
    }
}

#[test]
fn checksigverify_false_raises() {
    match expect_error(
        vec![
            push_bytes(Vec::new()),
            push_bytes(vec![0x02]),
            code(Opcode::OP_CHECKSIGVERIFY),
        ],
        ScriptedEcc(EccBehavior::Verdict(false)),
    ) {
        ScriptError::InvalidSignature(_, _) => {},
        other => panic!("expected InvalidSignature, got {:?}", other),
    }
}

#[test]
fn empty_script_leaves_empty_stack() {
    match expect_error(Vec::new(), ScriptedEcc(EccBehavior::Verdict(true))) {
        ScriptError::StackEmpty => {},
        other => panic!("expected StackEmpty, got {:?}", other),
    }
}

#[test]
fn error_titles_render() {
    assert_eq!(ScriptError::VerifyFailed.title(), "OP_VERIFY failed");
    assert_eq!(ScriptError::StackEmpty.title(), "Stack empty");
}
