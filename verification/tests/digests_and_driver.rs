use iguana::interpreter::ScriptInterpreter;
use iguana::script::{Op, Opcode, Script, TaggedOp};
use iguana::error::EccError;
use iguana::tx::{Ecc, SighashSource, Tx, TxInput, TxOutpoint};
use iguana::value::{ByteArray, Function, Integer, StackItemDelta, StackValue};

struct NullSighash;

impl SighashSource for NullSighash {
    fn preimage_ser(&self, _input_idx: usize, _flag: u32) -> Vec<u8> {
        Vec::new()
    }
}

struct YesEcc;

impl Ecc for YesEcc {
    fn verify(&self, _pubkey: &Vec<u8>, _msg: &Vec<u8>, _sig: &Vec<u8>) -> Result<bool, EccError> {
        Ok(true)
    }
}

fn interp_for(
    lock_ops: Vec<TaggedOp>,
    unlock_ops: Vec<TaggedOp>,
    is_p2sh: bool,
) -> ScriptInterpreter<YesEcc, NullSighash> {
    let tx = Tx {
        version: 1,
        lock_time: 0,
        inputs: vec![TxInput {
            prev_out: TxOutpoint { tx_hash: Vec::new(), vout: 0 },
            script: Script::new(unlock_ops),
            sequence: 0xffff_ffff,
            lock_script: Some(Script::new(lock_ops)),
            is_p2sh: Some(is_p2sh),
            value: None,
        }],
        outputs: Vec::new(),
        sighash: NullSighash,
    };
    ScriptInterpreter::new(tx, 0, YesEcc)
}

fn push_int(v: i64) -> TaggedOp {
    TaggedOp::bare(Op::PushInteger(Integer::new(v).unwrap()))
}

fn push_bytes(data: Vec<u8>) -> TaggedOp {
    TaggedOp::bare(Op::PushByteArray { array: ByteArray::from_data(data), is_minimal: true })
}

fn code(c: Opcode) -> TaggedOp {
    TaggedOp::bare(Op::Code(c))
}

fn digest_of(c: Opcode, input: Vec<u8>) -> Vec<u8> {
    let mut it = interp_for(vec![push_bytes(input), code(c)], Vec::new(), false);
    it.run().unwrap();
    match &it.stack()[0].data {
        StackValue::ByteArray(a) => a.data.clone(),
        other => panic!("expected a byte array, got {:?}", other),
    }
}

#[test]
fn sha256_of_empty_input() {
    assert_eq!(
        digest_of(Opcode::OP_SHA256, Vec::new()),
        hex::decode("e3b0c44298fc1c149afbf4c8996fb92427ae41e4649b934ca495991b7852b855").unwrap()
    );
}

#[test]
fn sha1_of_empty_input() {
    assert_eq!(
        digest_of(Opcode::OP_SHA1, Vec::new()),
        hex::decode("da39a3ee5e6b4b0d3255bfef95601890afd80709").unwrap()
    );
}

#[test]
fn ripemd160_of_empty_input() {
    assert_eq!(
        digest_of(Opcode::OP_RIPEMD160, Vec::new()),
        hex::decode("9c1185a5c5e9fc54612808977ee8f548b2258d31").unwrap()
    );
}

#[test]
fn hash160_is_ripemd_of_sha() {
    assert_eq!(
        digest_of(Opcode::OP_HASH160, Vec::new()),
        hex::decode("b472a266d0bd89c13706a4132ccfb16f7c3b9fcb").unwrap()
    );
}

#[test]
fn hash256_is_double_sha() {
    assert_eq!(
        digest_of(Opcode::OP_HASH256, Vec::new()),
        hex::decode("5df6e0e2761359d30a8275058e299fcc0381534545f55cf43e41983f5d4c9456").unwrap()
    );
}

#[test]
fn sha256_of_abc() {
    assert_eq!(
        digest_of(Opcode::OP_SHA256, b"abc".to_vec()),
        hex::decode("ba7816bf8f01cfea414140de5dae2223b00361a396177a9cb410ff61f20015ad").unwrap()
    );
}

#[test]
fn digest_carries_provenance_tag() {
    let mut it = interp_for(
        vec![push_bytes(b"abc".to_vec()), code(Opcode::OP_SHA256)],
        Vec::new(),
        false,
    );
    it.run().unwrap();
    match &it.stack()[0].data {
        StackValue::ByteArray(a) => {
            assert_eq!(a.function, Function::Sha256);
            assert!(a.preimage.is_some());
        },
        other => panic!("expected a byte array, got {:?}", other),
    }
}

#[test]
fn push_input_data_runs_unlocking_script() {
    let mut it = interp_for(
        vec![code(Opcode::OP_ADD)],
        vec![push_int(2), push_int(3)],
        false,
    );
    it.push_input_data().unwrap();
    assert_eq!(it.stack().len(), 2);
    assert_eq!(it.run().unwrap(), true);
    match &it.stack()[0].data {
        StackValue::Integer(i) => assert_eq!(i.value, 5),
        other => panic!("expected an integer, got {:?}", other),
    }
}

#[test]
fn push_input_data_skips_redeem_push_on_p2sh() {
    let mut it = interp_for(
        Vec::new(),
        vec![push_int(7), push_bytes(vec![0x51])],
        true,
    );
    it.push_input_data().unwrap();
    assert_eq!(it.stack().len(), 1);
    match &it.stack()[0].data {
        StackValue::Integer(i) => assert_eq!(i.value, 7),
        other => panic!("expected an integer, got {:?}", other),
    }
}

#[test]
fn deltas_mark_exactly_the_produced_slots() {
    let mut it = interp_for(
        vec![push_int(1), push_int(2), code(Opcode::OP_DUP)],
        Vec::new(),
        false,
    );
    it.run_next_op().unwrap();
    assert_eq!(it.stack()[0].delta, StackItemDelta::Added);
    it.run_next_op().unwrap();
    assert_eq!(it.stack()[0].delta, StackItemDelta::Untouched);
    assert_eq!(it.stack()[1].delta, StackItemDelta::Added);
    it.run_next_op().unwrap();
    assert_eq!(it.stack()[0].delta, StackItemDelta::Untouched);
    assert_eq!(it.stack()[1].delta, StackItemDelta::MovedIndirectly);
    assert_eq!(it.stack()[2].delta, StackItemDelta::Added);
}

#[test]
fn roll_marks_moved_slots() {
    let mut it = interp_for(
        vec![push_int(1), push_int(2), push_int(3), push_int(2), code(Opcode::OP_ROLL)],
        Vec::new(),
        false,
    );
    for _ in 0..5 {
        it.run_next_op().unwrap();
    }
    assert_eq!(it.stack().len(), 3);
    assert_eq!(it.stack()[0].delta, StackItemDelta::MovedIndirectly);
    assert_eq!(it.stack()[1].delta, StackItemDelta::MovedIndirectly);
    assert_eq!(it.stack()[2].delta, StackItemDelta::Moved);
    match &it.stack()[2].data {
        StackValue::Integer(i) => assert_eq!(i.value, 1),
        other => panic!("expected an integer, got {:?}", other),
    }
}

#[test]
fn pick_copies_named_item() {
    let mut it = interp_for(
        vec![push_int(4), push_int(9), push_int(1), code(Opcode::OP_PICK)],
        Vec::new(),
        false,
    );
    assert_eq!(it.run().unwrap(), true);
    assert_eq!(it.stack().len(), 3);
    match &it.stack()[2].data {
        StackValue::Integer(i) => assert_eq!(i.value, 4),
        other => panic!("expected an integer, got {:?}", other),
    }
}

#[test]
fn pushed_names_label_new_slots() {
    let mut op = push_int(42);
    op.pushed_names = Some(vec![Some("answer".to_owned())]);
    let mut it = interp_for(vec![op], Vec::new(), false);
    assert_eq!(it.run().unwrap(), true);
    assert_eq!(it.stack()[0].name.as_deref(), Some("answer"));
}

#[test]
fn instruction_pointer_stops_on_error() {
    let mut it = interp_for(
        vec![push_int(1), code(Opcode::OP_VERIFY), code(Opcode::OP_VERIFY)],
        Vec::new(),
        false,
    );
    it.run_next_op().unwrap();
    it.run_next_op().unwrap();
    assert_eq!(it.instruction_pointer(), 2);
    assert!(it.run_next_op().is_err());
    assert_eq!(it.instruction_pointer(), 2);
}

#[test]
fn size_reads_without_popping() {
    let mut it = interp_for(
        vec![push_bytes(vec![1, 2, 3]), code(Opcode::OP_SIZE)],
        Vec::new(),
        false,
    );
    assert_eq!(it.run().unwrap(), true);
    assert_eq!(it.stack().len(), 2);
    match &it.stack()[1].data {
        StackValue::Integer(i) => assert_eq!(i.value, 3),
        other => panic!("expected an integer, got {:?}", other),
    }
}

#[test]
fn arithmetic_and_comparisons() {
    let cases: Vec<(Opcode, i64, i64, i64)> = vec![
        (Opcode::OP_ADD, 3, 4, 7),
        (Opcode::OP_SUB, 3, 4, -1),
        (Opcode::OP_DIV, 7, 2, 3),
        (Opcode::OP_DIV, -7, 2, -3),
        (Opcode::OP_MOD, 7, 2, 1),
        (Opcode::OP_MOD, -7, 2, -1),
        (Opcode::OP_MIN, 3, 4, 3),
        (Opcode::OP_MAX, 3, 4, 4),
    ];
    for (c, a, b, expected) in cases {
        let mut it = interp_for(vec![push_int(a), push_int(b), code(c)], Vec::new(), false);
        it.run().unwrap();
        match &it.stack()[0].data {
            StackValue::Integer(i) => assert_eq!(i.value, expected, "case {:?}", c),
            other => panic!("expected an integer, got {:?}", other),
        }
    }
}

#[test]
fn comparisons_use_below_op_top() {
    let cases: Vec<(Opcode, i64, i64, bool)> = vec![
        (Opcode::OP_LESSTHAN, 1, 2, true),
        (Opcode::OP_LESSTHAN, 2, 1, false),
        (Opcode::OP_GREATERTHAN, 2, 1, true),
        (Opcode::OP_LESSTHANOREQUAL, 2, 2, true),
        (Opcode::OP_GREATERTHANOREQUAL, 1, 2, false),
    ];
    for (c, a, b, expected) in cases {
        let mut it = interp_for(vec![push_int(a), push_int(b), code(c)], Vec::new(), false);
        it.run().unwrap();
        match &it.stack()[0].data {
            StackValue::Boolean(got) => assert_eq!(*got, expected, "case {:?}", c),
            other => panic!("expected a boolean, got {:?}", other),
        }
    }
}

#[test]
fn within_is_half_open() {
    for (v, lo, hi, expected) in
        [(5i64, 1i64, 10i64, true), (1, 1, 10, true), (10, 1, 10, false), (0, 1, 10, false)]
    {
        let mut it = interp_for(
            vec![push_int(v), push_int(lo), push_int(hi), code(Opcode::OP_WITHIN)],
            Vec::new(),
            false,
        );
        it.run().unwrap();
        match &it.stack()[0].data {
            StackValue::Boolean(got) => assert_eq!(*got, expected),
            other => panic!("expected a boolean, got {:?}", other),
        }
    }
}

#[test]
fn bitwise_combines_elementwise() {
    let mut it = interp_for(
        vec![
            push_bytes(vec![0b1100, 0xff]),
            push_bytes(vec![0b1010, 0x0f]),
            code(Opcode::OP_AND),
        ],
        Vec::new(),
        false,
    );
    it.run().unwrap();
    match &it.stack()[0].data {
        StackValue::ByteArray(a) => assert_eq!(a.data, vec![0b1000, 0x0f]),
        other => panic!("expected a byte array, got {:?}", other),
    }
}

#[test]
fn suppressed_branch_does_not_consume() {
    // within a false branch, data-consuming ops are skipped entirely
    let mut it = interp_for(
        vec![
            push_int(5),
            push_int(0),
            code(Opcode::OP_IF),
            code(Opcode::OP_VERIFY),
            code(Opcode::OP_ENDIF),
        ],
        Vec::new(),
        false,
    );
    assert_eq!(it.run().unwrap(), true);
    assert_eq!(it.stack().len(), 1);
}
