use iguana::error::ScriptError;
use iguana::interpreter::ScriptInterpreter;
use iguana::script::{Op, Opcode, Script, TaggedOp};
use iguana::error::EccError;
use iguana::tx::{Ecc, SighashSource, Tx, TxInput, TxOutpoint};
use iguana::value::{ByteArray, Integer, StackValue};

struct NullSighash;

impl SighashSource for NullSighash {
    fn preimage_ser(&self, _input_idx: usize, _flag: u32) -> Vec<u8> {
        Vec::new()
    }
}

struct FixedEcc(bool);

impl Ecc for FixedEcc {
    fn verify(&self, _pubkey: &Vec<u8>, _msg: &Vec<u8>, _sig: &Vec<u8>) -> Result<bool, EccError> {
        Ok(self.0)
    }
}

fn interp_for(ops: Vec<TaggedOp>) -> ScriptInterpreter<FixedEcc, NullSighash> {
    interp_with(ops, FixedEcc(false), 0)
}

fn interp_with(
    ops: Vec<TaggedOp>,
    ecc: FixedEcc,
    lock_time: u32,
) -> ScriptInterpreter<FixedEcc, NullSighash> {
    let tx = Tx {
        version: 1,
        lock_time,
        inputs: vec![TxInput {
            prev_out: TxOutpoint { tx_hash: Vec::new(), vout: 0 },
            script: Script::new(Vec::new()),
            sequence: 0xffff_ffff,
            lock_script: Some(Script::new(ops)),
            is_p2sh: Some(false),
            value: None,
        }],
        outputs: Vec::new(),
        sighash: NullSighash,
    };
    ScriptInterpreter::new(tx, 0, ecc)
}

fn push_int(v: i64) -> TaggedOp {
    TaggedOp::bare(Op::PushInteger(Integer::new(v).unwrap()))
}

fn push_bytes(data: Vec<u8>) -> TaggedOp {
    TaggedOp::bare(Op::PushByteArray { array: ByteArray::from_data(data), is_minimal: true })
}

fn code(c: Opcode) -> TaggedOp {
    TaggedOp::bare(Op::Code(c))
}

#[test]
fn push_true() {
    let mut it = interp_for(vec![push_int(1)]);
    assert_eq!(it.run().unwrap(), true);
    assert_eq!(it.stack().len(), 1);
    match &it.stack()[0].data {
        StackValue::Integer(i) => assert_eq!(i.value, 1),
        other => panic!("expected an integer, got {:?}", other),
    }
}

#[test]
fn numeric_equality() {
    let mut it = interp_for(vec![push_int(2), push_int(2), code(Opcode::OP_NUMEQUAL)]);
    assert_eq!(it.run().unwrap(), true);
    assert_eq!(it.stack().len(), 1);
    match &it.stack()[0].data {
        StackValue::Boolean(b) => assert!(*b),
        other => panic!("expected a boolean, got {:?}", other),
    }
}

#[test]
fn minimality_rejection() {
    let mut it = interp_for(vec![push_bytes(vec![0x00]), code(Opcode::OP_1ADD)]);
    match it.run() {
        Err(ScriptError::InvalidDataType) => {},
        other => panic!("expected InvalidDataType, got {:?}", other),
    }
}

#[test]
fn conditional_takes_then_branch() {
    let mut it = interp_for(vec![
        push_int(1),
        code(Opcode::OP_IF),
        push_int(2),
        code(Opcode::OP_ELSE),
        push_int(3),
        code(Opcode::OP_ENDIF),
    ]);
    assert_eq!(it.run().unwrap(), true);
    assert_eq!(it.exec_stack().len(), 0);
    let top = it.stack().last().unwrap();
    match &top.data {
        StackValue::Integer(i) => assert_eq!(i.value, 2),
        other => panic!("expected an integer, got {:?}", other),
    }
}

#[test]
fn conditional_takes_else_branch() {
    let mut it = interp_for(vec![
        push_int(0),
        code(Opcode::OP_IF),
        push_int(2),
        code(Opcode::OP_ELSE),
        push_int(3),
        code(Opcode::OP_ENDIF),
    ]);
    assert_eq!(it.run().unwrap(), true);
    assert_eq!(it.exec_stack().len(), 0);
    match &it.stack().last().unwrap().data {
        StackValue::Integer(i) => assert_eq!(i.value, 3),
        other => panic!("expected an integer, got {:?}", other),
    }
}

#[test]
fn division_by_zero() {
    let mut it = interp_for(vec![push_int(5), push_int(0), code(Opcode::OP_DIV)]);
    match it.run() {
        Err(ScriptError::OpcodeMsg(Opcode::OP_DIV, msg)) => {
            assert_eq!(msg, "Division by 0");
        },
        other => panic!("expected OpcodeMsg(OP_DIV, ..), got {:?}", other),
    }
}

#[test]
fn checksig_empty_signature_pushes_false() {
    // an empty signature means "false but well-formed": no error, a
    // false verdict is pushed
    let pubkey = vec![0x02; 33];
    let mut it = interp_with(
        vec![push_bytes(Vec::new()), push_bytes(pubkey), code(Opcode::OP_CHECKSIG)],
        FixedEcc(false),
        0,
    );
    assert_eq!(it.run().unwrap(), false);
    assert_eq!(it.stack().len(), 1);
    match &it.stack()[0].data {
        StackValue::Boolean(b) => assert!(!*b),
        other => panic!("expected a boolean, got {:?}", other),
    }
}

#[test]
fn checksig_nonempty_false_raises() {
    let pubkey = vec![0x02; 33];
    let mut it = interp_with(
        vec![push_bytes(vec![0x30, 0x41]), push_bytes(pubkey), code(Opcode::OP_CHECKSIG)],
        FixedEcc(false),
        0,
    );
    match it.run() {
        Err(ScriptError::InvalidSignature(_, sig)) => {
            assert_eq!(sig.data, vec![0x30]);
        },
        other => panic!("expected InvalidSignature, got {:?}", other),
    }
}

#[test]
fn checkdatasig_true() {
    let mut it = interp_with(
        vec![
            push_bytes(vec![0x30, 0x01]),
            push_bytes(vec![0xaa]),
            push_bytes(vec![0x02; 33]),
            code(Opcode::OP_CHECKDATASIG),
        ],
        FixedEcc(true),
        0,
    );
    assert_eq!(it.run().unwrap(), true);
    match &it.stack().last().unwrap().data {
        StackValue::Boolean(b) => assert!(*b),
        other => panic!("expected a boolean, got {:?}", other),
    }
}

#[test]
fn locktime_passes_and_leaves_value() {
    let mut it = interp_with(
        vec![push_int(50), code(Opcode::OP_CHECKLOCKTIMEVERIFY)],
        FixedEcc(false),
        100,
    );
    assert_eq!(it.run().unwrap(), true);
    assert_eq!(it.stack().len(), 1);
    match &it.stack()[0].data {
        StackValue::Integer(i) => assert_eq!(i.value, 50),
        other => panic!("expected an integer, got {:?}", other),
    }
}

#[test]
fn locktime_fails_when_early() {
    let mut it = interp_with(
        vec![push_int(200), code(Opcode::OP_CHECKLOCKTIMEVERIFY)],
        FixedEcc(false),
        100,
    );
    match it.run() {
        Err(ScriptError::VerifyFailed) => {},
        other => panic!("expected VerifyFailed, got {:?}", other),
    }
}

#[test]
fn num2bin_bin2num_round_trip() {
    let mut it = interp_for(vec![
        push_int(-300),
        push_int(5),
        code(Opcode::OP_NUM2BIN),
        code(Opcode::OP_BIN2NUM),
    ]);
    assert_eq!(it.run().unwrap(), true);
    match &it.stack()[0].data {
        StackValue::Integer(i) => assert_eq!(i.value, -300),
        other => panic!("expected an integer, got {:?}", other),
    }
}

#[test]
fn num2bin_pads_exactly() {
    let mut it = interp_for(vec![push_int(1), push_int(4), code(Opcode::OP_NUM2BIN)]);
    assert_eq!(it.run().unwrap(), true);
    match &it.stack()[0].data {
        StackValue::ByteArray(a) => assert_eq!(a.data, vec![0x01, 0x00, 0x00, 0x00]),
        other => panic!("expected a byte array, got {:?}", other),
    }
}

#[test]
fn num2bin_too_narrow_fails() {
    let mut it = interp_for(vec![push_int(300), push_int(1), code(Opcode::OP_NUM2BIN)]);
    match it.run() {
        Err(ScriptError::OpcodeMsg(Opcode::OP_NUM2BIN, msg)) => {
            assert_eq!(msg, "Integer does not fit");
        },
        other => panic!("expected OpcodeMsg(OP_NUM2BIN, ..), got {:?}", other),
    }
}

#[test]
fn reversebytes_twice_is_identity() {
    let mut it = interp_for(vec![
        push_bytes(vec![1, 2, 3, 4]),
        code(Opcode::OP_REVERSEBYTES),
        code(Opcode::OP_REVERSEBYTES),
    ]);
    assert_eq!(it.run().unwrap(), true);
    match &it.stack()[0].data {
        StackValue::ByteArray(a) => assert_eq!(a.data, vec![1, 2, 3, 4]),
        other => panic!("expected a byte array, got {:?}", other),
    }
}

#[test]
fn cat_concatenates_below_then_top() {
    let mut it = interp_for(vec![
        push_bytes(vec![0xaa]),
        push_bytes(vec![0xbb]),
        code(Opcode::OP_CAT),
    ]);
    assert_eq!(it.run().unwrap(), true);
    match &it.stack()[0].data {
        StackValue::ByteArray(a) => assert_eq!(a.data, vec![0xaa, 0xbb]),
        other => panic!("expected a byte array, got {:?}", other),
    }
}

#[test]
fn split_cuts_at_index() {
    let mut it = interp_for(vec![
        push_bytes(vec![1, 2, 3]),
        push_int(1),
        code(Opcode::OP_SPLIT),
    ]);
    assert_eq!(it.run().unwrap(), true);
    assert_eq!(it.stack().len(), 2);
    match (&it.stack()[0].data, &it.stack()[1].data) {
        (StackValue::ByteArray(l), StackValue::ByteArray(r)) => {
            assert_eq!(l.data, vec![1]);
            assert_eq!(r.data, vec![2, 3]);
        },
        other => panic!("expected two byte arrays, got {:?}", other),
    }
}

#[test]
fn bin2num_accepts_non_minimal() {
    let mut it = interp_for(vec![push_bytes(vec![0x01, 0x00]), code(Opcode::OP_BIN2NUM)]);
    assert_eq!(it.run().unwrap(), true);
    match &it.stack()[0].data {
        StackValue::Integer(i) => assert_eq!(i.value, 1),
        other => panic!("expected an integer, got {:?}", other),
    }
}

#[test]
fn alt_stack_round_trip() {
    let mut it = interp_for(vec![
        push_int(7),
        code(Opcode::OP_TOALTSTACK),
        code(Opcode::OP_FROMALTSTACK),
    ]);
    assert_eq!(it.run().unwrap(), true);
    assert_eq!(it.alt_stack().len(), 0);
    match &it.stack()[0].data {
        StackValue::Integer(i) => assert_eq!(i.value, 7),
        other => panic!("expected an integer, got {:?}", other),
    }
}

#[test]
fn push_only_script_depth_equals_pushes() {
    let mut it = interp_for(vec![push_int(9), push_int(0), push_bytes(vec![5])]);
    assert_eq!(it.run().unwrap(), true);
    assert_eq!(it.stack().len(), 3);
}

#[test]
fn booleans_encode_canonically() {
    // CAT coerces both operands to bytes: true is a single 0x01 byte,
    // false is empty
    let mut it = interp_for(vec![
        TaggedOp::bare(Op::PushBoolean(true)),
        TaggedOp::bare(Op::PushBoolean(false)),
        code(Opcode::OP_CAT),
    ]);
    assert_eq!(it.run().unwrap(), true);
    match &it.stack()[0].data {
        StackValue::ByteArray(a) => assert_eq!(a.data, vec![0x01]),
        other => panic!("expected a byte array, got {:?}", other),
    }
}

#[test]
fn final_verdict_ignores_minimality() {
    // a non-minimal, non-empty byte array still counts as truthy at the
    // end of a run
    let mut it = interp_for(vec![push_bytes(vec![0x00])]);
    assert_eq!(it.run().unwrap(), true);
    assert!(it.stack()[0].to_bool());
}

#[test]
fn push_false_runs_to_false() {
    let mut it = interp_for(vec![TaggedOp::bare(Op::PushBoolean(false))]);
    assert_eq!(it.run().unwrap(), false);
    assert!(!it.stack()[0].to_bool());
}
