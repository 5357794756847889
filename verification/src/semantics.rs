//! The mathematical small-step semantics of the interpreter: what one
//! executed operation does to the machine state, for every opcode. The
//! executable dispatcher is verified against `step`; the machine's laws
//! are proved about it.

use vstd::prelude::*;
use crate::encoding::{
    bool_enc, fits_in, fixed_enc, in_range, is_minimal, min_enc, sm_val,
};
use crate::error::{EccErrorV, ErrV};
use crate::script::{
    push_delta, table_arity, table_delta, table_order, Opcode, OpV, TaggedOpV,
};
use crate::value::{
    canonical_bytes, truthy, value_wf, ByteArrayV, Function, ItemV, StackItemDelta, ValueV,
};

verus! {

/// The whole observable machine state between steps.
pub struct StateV {
    pub stack: Seq<ItemV>,
    pub alt: Seq<ItemV>,
    pub cond: Seq<bool>,
}

/// What the outside world answered during one step: the serialized
/// sighash preimage the transaction supplied, and the verdict of the ECC
/// verifier. Steps that consult neither ignore it.
pub struct EnvV {
    pub preimage: Seq<u8>,
    pub verdict: Result<bool, EccErrorV>,
}

/// The machine executes ops only while every nested conditional took its
/// branch; an empty conditional stack means executing.
pub open spec fn all_exec(c: Seq<bool>) -> bool {
    forall|i: int| 0 <= i < c.len() ==> c[i]
}

/// The start-of-step discipline: every surviving slot is set back to
/// Untouched before the op runs.
pub open spec fn reset_deltas(s: Seq<ItemV>) -> Seq<ItemV> {
    s.map_values(|it: ItemV| ItemV { delta: StackItemDelta::Untouched, ..it })
}

/// Every stack slot holds a well-formed value.
pub open spec fn items_wf(s: Seq<ItemV>) -> bool {
    forall|i: int| 0 <= i < s.len() ==> value_wf(#[trigger] s[i].data)
}

/// A script op is well formed when any integer it pushes lies in the
/// numeric range.
pub open spec fn op_wf(o: TaggedOpV) -> bool {
    o.op matches OpV::PushInteger(x) ==> in_range(x)
}

/// Every op of a script is well formed.
pub open spec fn script_wf(s: Seq<TaggedOpV>) -> bool {
    forall|i: int| 0 <= i < s.len() ==> op_wf(#[trigger] s[i])
}

/// Taking the top item off a stack; the sole way any pop can fail is an
/// empty stack.
pub open spec fn pop1(s: Seq<ItemV>) -> Result<(ItemV, Seq<ItemV>), ErrV> {
    if s.len() == 0 {
        Err(ErrV::StackEmpty)
    } else {
        Ok((s.last(), s.drop_last()))
    }
}

/// The boolean coercion: integers by zeroness, booleans as themselves,
/// byte arrays refused.
pub open spec fn to_bool_v(v: ValueV) -> Result<bool, ErrV> {
    match v {
        ValueV::Integer(i) => Ok(i != 0),
        ValueV::Boolean(b) => Ok(b),
        ValueV::ByteArray(_) => Err(ErrV::InvalidDataType),
    }
}

/// The integer coercion: byte arrays must be minimally encoded and their
/// value must fit the numeric range.
pub open spec fn to_int_v(v: ValueV) -> Result<int, ErrV> {
    match v {
        ValueV::Integer(i) => Ok(i),
        ValueV::Boolean(b) => Ok(if b { 1int } else { 0int }),
        ValueV::ByteArray(a) => {
            if !is_minimal(a.data) {
                Err(ErrV::InvalidDataType)
            } else if !in_range(sm_val(a.data)) {
                Err(ErrV::InvalidInteger)
            } else {
                Ok(sm_val(a.data))
            }
        },
    }
}

/// Pop an item and coerce it to a boolean.
pub open spec fn pop_bool_v(s: Seq<ItemV>) -> Result<(bool, Seq<ItemV>), ErrV> {
    match pop1(s) {
        Err(e) => Err(e),
        Ok((it, s2)) => match to_bool_v(it.data) {
            Err(e) => Err(e),
            Ok(b) => Ok((b, s2)),
        },
    }
}

/// Pop an item and coerce it to an integer.
pub open spec fn pop_int_v(s: Seq<ItemV>) -> Result<(int, Seq<ItemV>), ErrV> {
    match pop1(s) {
        Err(e) => Err(e),
        Ok((it, s2)) => match to_int_v(it.data) {
            Err(e) => Err(e),
            Ok(i) => Ok((i, s2)),
        },
    }
}

/// Pop an item and take its canonical byte encoding; this cannot fail on
/// a non-empty stack.
pub open spec fn pop_bytes_v(s: Seq<ItemV>) -> Result<(ByteArrayV, Seq<ItemV>), ErrV> {
    match pop1(s) {
        Err(e) => Err(e),
        Ok((it, s2)) => Ok((canonical_bytes(it.data), s2)),
    }
}

/// The display name an op gives the `idx`-th value it pushes.
pub open spec fn pushed_name_at(op: TaggedOpV, idx: int) -> Option<Seq<char>> {
    match op.pushed_names {
        Some(ns) => if 0 <= idx < ns.len() {
            ns[idx]
        } else {
            None
        },
        None => None,
    }
}

/// The delta a pushed value carries, by the op that pushes it.
pub open spec fn op_push_delta(op: OpV) -> StackItemDelta {
    match op {
        OpV::Code(c) => push_delta(c),
        _ => StackItemDelta::Added,
    }
}

/// The stack slot an op produces for its `idx`-th pushed value: named
/// after the op's pushed names (a byte array also takes the name
/// itself), annotated with the op's push delta.
pub open spec fn pushed_item(op: TaggedOpV, idx: int, v: ValueV) -> ItemV {
    let name = pushed_name_at(op, idx);
    let v2 = match v {
        ValueV::ByteArray(a) => ValueV::ByteArray(ByteArrayV { name, ..a }),
        _ => v,
    };
    ItemV { data: v2, name, delta: op_push_delta(op.op) }
}

/// A plain, unnamed byte-array value.
pub open spec fn plain_bytes(data: Seq<u8>) -> ValueV {
    ValueV::ByteArray(ByteArrayV { data, name: None, function: Function::Plain })
}

/// A byte-array value tagged as produced by `function`.
pub open spec fn fn_bytes(data: Seq<u8>, function: Function) -> ValueV {
    ValueV::ByteArray(ByteArrayV { data, name: None, function })
}

/// The byte sequence reversed.
pub open spec fn seq_reverse(s: Seq<u8>) -> Seq<u8> {
    Seq::new(s.len(), |i: int| s[s.len() - 1 - i])
}

/// The elementwise combination of two equally long byte sequences under
/// a bitwise opcode.
pub open spec fn bitwise_combine(c: Opcode, a: Seq<u8>, b: Seq<u8>) -> Seq<u8> {
    Seq::new(a.len(), |i: int| {
        if c == Opcode::OP_AND {
            a[i] & b[i]
        } else if c == Opcode::OP_OR {
            a[i] | b[i]
        } else {
            a[i] ^ b[i]
        }
    })
}

/// One value pushed onto the stack of a state.
pub open spec fn push_on(st: StateV, op: TaggedOpV, idx: int, v: ValueV) -> StateV {
    StateV { stack: st.stack.push(pushed_item(op, idx, v)), ..st }
}

/// What one opcode does to an executing machine whose deltas were
/// already reset. `lock_time` is the transaction's, `env` the outside
/// world's answers.
pub open spec fn step_opcode(
    st: StateV,
    op: TaggedOpV,
    c: Opcode,
    lock_time: u32,
    env: EnvV,
) -> Result<StateV, ErrV> {
    match c {
        Opcode::OP_PICK | Opcode::OP_ROLL => step_pick_roll(st, c),
        Opcode::OP_TOALTSTACK => match pop1(st.stack) {
            Err(e) => Err(e),
            Ok((it, s2)) => Ok(StateV { stack: s2, alt: st.alt.push(it), ..st }),
        },
        Opcode::OP_FROMALTSTACK => match pop1(st.alt) {
            Err(e) => Err(e),
            Ok((it, a2)) => Ok(StateV {
                stack: st.stack.push(pushed_item(op, 0, it.data)),
                alt: a2,
                ..st
            }),
        },
        Opcode::OP_CAT => match pop_bytes_v(st.stack) {
            Err(e) => Err(e),
            Ok((first, s1)) => match pop_bytes_v(s1) {
                Err(e) => Err(e),
                Ok((second, s2)) => Ok(push_on(
                    StateV { stack: s2, ..st },
                    op,
                    0,
                    plain_bytes(second.data + first.data),
                )),
            },
        },
        Opcode::OP_SPLIT => step_split(st, op),
        Opcode::OP_NUM2BIN => step_num2bin(st, op),
        Opcode::OP_BIN2NUM => match pop_bytes_v(st.stack) {
            Err(e) => Err(e),
            Ok((a, s1)) => {
                if !in_range(sm_val(a.data)) {
                    Err(ErrV::OpcodeMsg(Opcode::OP_BIN2NUM, "Number out of range"@))
                } else {
                    Ok(push_on(StateV { stack: s1, ..st }, op, 0, ValueV::Integer(sm_val(a.data))))
                }
            },
        },
        Opcode::OP_SIZE => {
            if st.stack.len() == 0 {
                Err(ErrV::StackEmpty)
            } else {
                match st.stack.last().data {
                    ValueV::ByteArray(a) => {
                        if a.data.len() > 0x7fff_ffff_ffff_ffff {
                            Err(ErrV::InvalidInteger)
                        } else {
                            Ok(push_on(st, op, 0, ValueV::Integer(a.data.len() as int)))
                        }
                    },
                    _ => Err(ErrV::InvalidDataType),
                }
            }
        },
        Opcode::OP_SHA1 => step_hash(st, op, c),
        Opcode::OP_RIPEMD160 => step_hash(st, op, c),
        Opcode::OP_SHA256 => step_hash(st, op, c),
        Opcode::OP_HASH160 => step_hash(st, op, c),
        Opcode::OP_HASH256 => step_hash(st, op, c),
        Opcode::OP_REVERSEBYTES => match pop_bytes_v(st.stack) {
            Err(e) => Err(e),
            Ok((a, s1)) => Ok(push_on(
                StateV { stack: s1, ..st },
                op,
                0,
                fn_bytes(seq_reverse(a.data), Function::Reverse),
            )),
        },
        Opcode::OP_EQUAL | Opcode::OP_EQUALVERIFY => match pop_bytes_v(st.stack) {
            Err(e) => Err(e),
            Ok((first, s1)) => match pop_bytes_v(s1) {
                Err(e) => Err(e),
                Ok((second, s2)) => {
                    let equal = first.data == second.data;
                    if c == Opcode::OP_EQUALVERIFY {
                        if equal {
                            Ok(StateV { stack: s2, ..st })
                        } else {
                            Err(ErrV::EqualVerifyFailed(first, second))
                        }
                    } else {
                        Ok(push_on(StateV { stack: s2, ..st }, op, 0, ValueV::Boolean(equal)))
                    }
                },
            },
        },
        Opcode::OP_AND | Opcode::OP_OR | Opcode::OP_XOR => match pop_bytes_v(st.stack) {
            Err(e) => Err(e),
            Ok((first, s1)) => match pop_bytes_v(s1) {
                Err(e) => Err(e),
                Ok((second, s2)) => {
                    if first.data.len() != second.data.len() {
                        Err(ErrV::OpcodeMsg(
                            Opcode::OP_AND,
                            "Byte arrays have unequal length"@,
                        ))
                    } else {
                        Ok(push_on(
                            StateV { stack: s2, ..st },
                            op,
                            0,
                            plain_bytes(bitwise_combine(c, first.data, second.data)),
                        ))
                    }
                },
            },
        },
        Opcode::OP_NOT => match pop_bool_v(st.stack) {
            Err(e) => Err(e),
            Ok((b, s1)) => Ok(push_on(StateV { stack: s1, ..st }, op, 0, ValueV::Boolean(!b))),
        },
        Opcode::OP_BOOLAND | Opcode::OP_BOOLOR => match pop_bool_v(st.stack) {
            Err(e) => Err(e),
            Ok((first, s1)) => match pop_bool_v(s1) {
                Err(e) => Err(e),
                Ok((second, s2)) => Ok(push_on(
                    StateV { stack: s2, ..st },
                    op,
                    0,
                    ValueV::Boolean(
                        if c == Opcode::OP_BOOLAND {
                            first && second
                        } else {
                            first || second
                        },
                    ),
                )),
            },
        },
        Opcode::OP_0NOTEQUAL => match pop_int_v(st.stack) {
            Err(e) => Err(e),
            Ok((i, s1)) => Ok(push_on(StateV { stack: s1, ..st }, op, 0, ValueV::Boolean(i != 0))),
        },
        Opcode::OP_NUMEQUAL | Opcode::OP_LESSTHAN | Opcode::OP_GREATERTHAN
        | Opcode::OP_LESSTHANOREQUAL | Opcode::OP_GREATERTHANOREQUAL => {
            match pop_int_v(st.stack) {
                Err(e) => Err(e),
                Ok((b, s1)) => match pop_int_v(s1) {
                    Err(e) => Err(e),
                    Ok((a, s2)) => Ok(push_on(
                        StateV { stack: s2, ..st },
                        op,
                        0,
                        ValueV::Boolean(compare_ints(c, a, b)),
                    )),
                },
            }
        },
        Opcode::OP_NUMEQUALVERIFY => match pop_int_v(st.stack) {
            Err(e) => Err(e),
            Ok((b, s1)) => match pop_int_v(s1) {
                Err(e) => Err(e),
                Ok((a, s2)) => {
                    if a == b {
                        Ok(StateV { stack: s2, ..st })
                    } else {
                        Err(ErrV::VerifyFailed)
                    }
                },
            },
        },
        Opcode::OP_MIN | Opcode::OP_MAX => match pop_int_v(st.stack) {
            Err(e) => Err(e),
            Ok((b, s1)) => match pop_int_v(s1) {
                Err(e) => Err(e),
                Ok((a, s2)) => Ok(push_on(
                    StateV { stack: s2, ..st },
                    op,
                    0,
                    ValueV::Integer(
                        if c == Opcode::OP_MIN {
                            if a <= b { a } else { b }
                        } else {
                            if a >= b { a } else { b }
                        },
                    ),
                )),
            },
        },
        Opcode::OP_WITHIN => match pop_int_v(st.stack) {
            Err(e) => Err(e),
            Ok((hi, s1)) => match pop_int_v(s1) {
                Err(e) => Err(e),
                Ok((lo, s2)) => match pop_int_v(s2) {
                    Err(e) => Err(e),
                    Ok((v, s3)) => Ok(push_on(
                        StateV { stack: s3, ..st },
                        op,
                        0,
                        ValueV::Boolean(lo <= v && v < hi),
                    )),
                },
            },
        },
        Opcode::OP_1ADD | Opcode::OP_1SUB | Opcode::OP_NEGATE | Opcode::OP_ABS => {
            match pop_int_v(st.stack) {
                Err(e) => Err(e),
                Ok((a, s1)) => {
                    let v = unary_result(c, a);
                    if !in_range(v) {
                        Err(ErrV::InvalidInteger)
                    } else {
                        Ok(push_on(StateV { stack: s1, ..st }, op, 0, ValueV::Integer(v)))
                    }
                },
            }
        },
        Opcode::OP_ADD | Opcode::OP_SUB => match pop_int_v(st.stack) {
            Err(e) => Err(e),
            Ok((b, s1)) => match pop_int_v(s1) {
                Err(e) => Err(e),
                Ok((a, s2)) => {
                    let v = if c == Opcode::OP_ADD {
                        a + b
                    } else {
                        a - b
                    };
                    if !in_range(v) {
                        Err(ErrV::InvalidInteger)
                    } else {
                        Ok(push_on(StateV { stack: s2, ..st }, op, 0, ValueV::Integer(v)))
                    }
                },
            },
        },
        Opcode::OP_DIV | Opcode::OP_MOD => match pop_int_v(st.stack) {
            Err(e) => Err(e),
            Ok((b, s1)) => match pop_int_v(s1) {
                Err(e) => Err(e),
                Ok((a, s2)) => {
                    if b == 0 {
                        Err(ErrV::OpcodeMsg(
                            c,
                            if c == Opcode::OP_DIV {
                                "Division by 0"@
                            } else {
                                "Modulo by 0"@
                            },
                        ))
                    } else {
                        Ok(push_on(
                            StateV { stack: s2, ..st },
                            op,
                            0,
                            ValueV::Integer(
                                if c == Opcode::OP_DIV {
                                    crate::value::tdiv(a, b)
                                } else {
                                    crate::value::tmod(a, b)
                                },
                            ),
                        ))
                    }
                },
            },
        },
        Opcode::OP_IF => {
            if all_exec(st.cond) {
                match pop_bool_v(st.stack) {
                    Err(e) => Err(e),
                    Ok((b, s1)) => Ok(StateV { stack: s1, cond: st.cond.push(b), ..st }),
                }
            } else {
                Ok(StateV { cond: st.cond.push(false), ..st })
            }
        },
        Opcode::OP_ELSE => {
            if st.cond.len() == 0 {
                Err(ErrV::UnbalancedConditionals(Opcode::OP_ELSE))
            } else {
                Ok(StateV {
                    cond: st.cond.update(st.cond.len() - 1, !st.cond.last()),
                    ..st
                })
            }
        },
        Opcode::OP_ENDIF => {
            if st.cond.len() == 0 {
                Err(ErrV::UnbalancedConditionals(Opcode::OP_ENDIF))
            } else {
                Ok(StateV { cond: st.cond.drop_last(), ..st })
            }
        },
        Opcode::OP_VERIFY => match pop1(st.stack) {
            Err(e) => Err(e),
            Ok((it, s1)) => {
                if truthy(it.data) {
                    Ok(StateV { stack: s1, ..st })
                } else {
                    Err(ErrV::VerifyFailed)
                }
            },
        },
        Opcode::OP_CHECKSIG | Opcode::OP_CHECKSIGVERIFY | Opcode::OP_CHECKDATASIG
        | Opcode::OP_CHECKDATASIGVERIFY => step_checksig(st, op, c, env),
        Opcode::OP_CODESEPARATOR => Ok(st),
        Opcode::OP_CHECKLOCKTIMEVERIFY => match pop_int_v(st.stack) {
            Err(e) => Err(e),
            Ok((t, s1)) => {
                if t < 0 || t > u32::MAX {
                    Err(ErrV::InvalidConversion)
                } else if (lock_time as int) < t {
                    Err(ErrV::VerifyFailed)
                } else {
                    Ok(push_on(StateV { stack: s1, ..st }, op, 0, ValueV::Integer(t)))
                }
            },
        },
        Opcode::OP_CHECKSEQUENCEVERIFY => Ok(st),
        _ => step_table(st, c),
    }
}

/// What a comparison opcode computes of `a` (below) and `b` (on top).
pub open spec fn compare_ints(c: Opcode, a: int, b: int) -> bool {
    match c {
        Opcode::OP_NUMEQUAL => a == b,
        Opcode::OP_LESSTHAN => a < b,
        Opcode::OP_GREATERTHAN => a > b,
        Opcode::OP_LESSTHANOREQUAL => a <= b,
        _ => a >= b,
    }
}

/// What a unary arithmetic opcode computes.
pub open spec fn unary_result(c: Opcode, a: int) -> int {
    match c {
        Opcode::OP_1ADD => a + 1,
        Opcode::OP_1SUB => a - 1,
        Opcode::OP_NEGATE => -a,
        _ => crate::encoding::int_mag(a) as int,
    }
}

/// The copy and reshuffle opcodes over a popped depth argument.
pub open spec fn step_pick_roll(st: StateV, c: Opcode) -> Result<StateV, ErrV> {
    match pop_int_v(st.stack) {
        Err(e) => Err(e),
        Ok((depth, s1)) => {
            if depth < 0 || s1.len() <= depth {
                Err(ErrV::InvalidDepth(depth))
            } else {
                let idx = s1.len() - 1 - depth;
                if c == Opcode::OP_PICK {
                    let copied = ItemV { delta: StackItemDelta::Added, ..s1[idx] };
                    Ok(StateV { stack: s1.push(copied), ..st })
                } else {
                    let moved = ItemV { delta: StackItemDelta::Moved, ..s1[idx] };
                    let above = Seq::new(
                        (s1.len() - idx - 1) as nat,
                        |j: int| ItemV { delta: StackItemDelta::MovedIndirectly, ..s1[idx + 1 + j] },
                    );
                    Ok(StateV { stack: s1.take(idx) + above + seq![moved], ..st })
                }
            }
        },
    }
}

/// Cutting a byte array at a popped index.
pub open spec fn step_split(st: StateV, op: TaggedOpV) -> Result<StateV, ErrV> {
    match pop_int_v(st.stack) {
        Err(e) => Err(e),
        Ok((at, s1)) => {
            if at < 0 {
                Err(ErrV::InvalidConversion)
            } else {
                match pop_bytes_v(s1) {
                    Err(e) => Err(e),
                    Ok((a, s2)) => {
                        if at > a.data.len() {
                            Err(ErrV::OpcodeMsg(Opcode::OP_SPLIT, "Split index out of bounds"@))
                        } else {
                            let left = pushed_item(op, 0, plain_bytes(a.data.take(at)));
                            let right = pushed_item(op, 1, plain_bytes(a.data.skip(at)));
                            Ok(StateV { stack: s2.push(left).push(right), ..st })
                        }
                    },
                }
            }
        },
    }
}

/// Re-encoding an integer in a popped number of bytes.
pub open spec fn step_num2bin(st: StateV, op: TaggedOpV) -> Result<StateV, ErrV> {
    match pop_int_v(st.stack) {
        Err(e) => Err(e),
        Ok((n, s1)) => match pop_int_v(s1) {
            Err(e) => Err(e),
            Ok((x, s2)) => {
                if n < 0 {
                    Err(ErrV::OpcodeMsg(Opcode::OP_NUM2BIN, "Invalid number of bytes"@))
                } else if !fits_in(x, n as nat) {
                    Err(ErrV::OpcodeMsg(Opcode::OP_NUM2BIN, "Integer does not fit"@))
                } else {
                    Ok(push_on(
                        StateV { stack: s2, ..st },
                        op,
                        0,
                        fn_bytes(fixed_enc(x, n as nat), Function::Num2Bin),
                    ))
                }
            },
        },
    }
}

/// The digest a hashing opcode applies.
pub open spec fn hash_of(c: Opcode, data: Seq<u8>) -> Seq<u8> {
    match c {
        Opcode::OP_SHA1 => crate::hashes::sha1_of(data),
        Opcode::OP_RIPEMD160 => crate::hashes::ripemd160_of(data),
        Opcode::OP_SHA256 => crate::hashes::sha256_of(data),
        Opcode::OP_HASH160 => crate::hashes::ripemd160_of(crate::hashes::sha256_of(data)),
        _ => crate::hashes::sha256_of(crate::hashes::sha256_of(data)),
    }
}

/// The provenance tag a hashing opcode leaves on its digest.
pub open spec fn hash_function_tag(c: Opcode) -> Function {
    match c {
        Opcode::OP_SHA1 => Function::Sha1,
        Opcode::OP_RIPEMD160 => Function::Ripemd160,
        Opcode::OP_SHA256 => Function::Sha256,
        Opcode::OP_HASH160 => Function::Hash160,
        _ => Function::Hash256,
    }
}

/// A hashing opcode: pop a byte array, push its digest.
pub open spec fn step_hash(st: StateV, op: TaggedOpV, c: Opcode) -> Result<StateV, ErrV> {
    match pop_bytes_v(st.stack) {
        Err(e) => Err(e),
        Ok((a, s1)) => Ok(push_on(
            StateV { stack: s1, ..st },
            op,
            0,
            fn_bytes(hash_of(c, a.data), hash_function_tag(c)),
        )),
    }
}

/// The signature-checking opcodes. The message is the double-SHA-256 of
/// the sighash preimage (for the transaction forms) or the SHA-256 of a
/// popped message (for the data forms); `env` carries the preimage and
/// the verifier's verdict, and the step states what happens for every
/// possible answer.
pub open spec fn step_checksig(
    st: StateV,
    op: TaggedOpV,
    c: Opcode,
    env: EnvV,
) -> Result<StateV, ErrV> {
    match pop_bytes_v(st.stack) {
        Err(e) => Err(e),
        Ok((pubkey, s1)) => {
            let is_data = c == Opcode::OP_CHECKDATASIG || c == Opcode::OP_CHECKDATASIGVERIFY;
            let is_verify = c == Opcode::OP_CHECKSIGVERIFY || c == Opcode::OP_CHECKDATASIGVERIFY;
            if is_data {
                match pop_bytes_v(s1) {
                    Err(e) => Err(e),
                    Ok((msg_data, s2)) => match pop_bytes_v(s2) {
                        Err(e) => Err(e),
                        Ok((sig, s3)) => {
                            let msg = ByteArrayV {
                                data: crate::hashes::sha256_of(msg_data.data),
                                name: None,
                                function: Function::Sha256,
                            };
                            checksig_outcome(
                                StateV { stack: s3, ..st },
                                op,
                                c,
                                is_verify,
                                pubkey,
                                msg,
                                sig,
                                env.verdict,
                            )
                        },
                    },
                }
            } else {
                match pop_bytes_v(s1) {
                    Err(e) => Err(e),
                    Ok((sig, s2)) => {
                        let sig_ser = ByteArrayV {
                            data: if sig.data.len() > 0 {
                                sig.data.drop_last()
                            } else {
                                sig.data
                            },
                            name: None,
                            function: Function::ToDataSig,
                        };
                        let msg = ByteArrayV {
                            data: crate::hashes::sha256_of(
                                crate::hashes::sha256_of(env.preimage),
                            ),
                            name: None,
                            function: Function::Hash256,
                        };
                        checksig_outcome(
                            StateV { stack: s2, ..st },
                            op,
                            c,
                            is_verify,
                            pubkey,
                            msg,
                            sig_ser,
                            env.verdict,
                        )
                    },
                }
            }
        },
    }
}

/// What the machine does with the verifier's answer: each verifier error
/// maps to its script error; a false verdict on a non-empty signature is
/// an error, on an empty one the non-verify forms push false.
pub open spec fn checksig_outcome(
    st: StateV,
    op: TaggedOpV,
    c: Opcode,
    is_verify: bool,
    pubkey: ByteArrayV,
    msg: ByteArrayV,
    sig_ser: ByteArrayV,
    verdict: Result<bool, EccErrorV>,
) -> Result<StateV, ErrV> {
    match verdict {
        Err(EccErrorV::InvalidPubkey) => Err(ErrV::InvalidPubKey(pubkey)),
        Err(EccErrorV::InvalidSignatureFormat) => Err(ErrV::InvalidSignatureFormat(sig_ser)),
        Err(EccErrorV::Other(m)) => Err(ErrV::OpcodeMsg(c, m)),
        Ok(validity) => {
            if !is_verify {
                if sig_ser.data.len() > 0 && !validity {
                    Err(ErrV::InvalidSignature(msg, sig_ser))
                } else {
                    Ok(push_on(st, op, 0, ValueV::Boolean(validity)))
                }
            } else {
                if !validity {
                    Err(ErrV::InvalidSignature(msg, sig_ser))
                } else {
                    Ok(st)
                }
            }
        },
    }
}

/// A table-driven pure stack permutation: the top `arity` items are
/// drained and re-pushed in the table's order with the table's deltas.
/// Opcodes without a table entry are not implemented.
pub open spec fn step_table(st: StateV, c: Opcode) -> Result<StateV, ErrV> {
    match table_order(c) {
        None => Err(ErrV::NotImplemented),
        Some(ord) => {
            let arity = table_arity(c);
            if st.stack.len() < arity {
                Err(ErrV::StackEmpty)
            } else {
                let base = st.stack.len() - arity;
                let window = st.stack.skip(base);
                let out = Seq::new(
                    ord.len(),
                    |i: int| ItemV { delta: table_delta(c)[i], ..window[ord[i]] },
                );
                Ok(StateV { stack: st.stack.take(base) + out, ..st })
            }
        },
    }
}

/// One whole step of the machine on a tagged op: deltas are reset, a
/// suppressed op (other than the conditionals themselves) does nothing,
/// pushes push, invalid ops fail, opcodes dispatch.
pub open spec fn step(st: StateV, op: TaggedOpV, lock_time: u32, env: EnvV) -> Result<
    StateV,
    ErrV,
> {
    let st0 = StateV { stack: reset_deltas(st.stack), ..st };
    let executing = all_exec(st.cond);
    match op.op {
        OpV::Code(c) => {
            if c == Opcode::OP_IF || c == Opcode::OP_ELSE || c == Opcode::OP_ENDIF || executing {
                step_opcode(st0, op, c, lock_time, env)
            } else {
                Ok(st0)
            }
        },
        OpV::Invalid(b) => if executing {
            Err(ErrV::InvalidOpcode(b))
        } else {
            Ok(st0)
        },
        OpV::PushBoolean(b) => if executing {
            Ok(push_on(st0, op, 0, ValueV::Boolean(b)))
        } else {
            Ok(st0)
        },
        OpV::PushInteger(i) => if executing {
            Ok(push_on(st0, op, 0, ValueV::Integer(i)))
        } else {
            Ok(st0)
        },
        OpV::PushByteArray { array, is_minimal: _ } => if executing {
            Ok(push_on(st0, op, 0, ValueV::ByteArray(array)))
        } else {
            Ok(st0)
        },
    }
}

/// How an executable step relates to the mathematical one: the same
/// success with exactly the specified state, or the same error.
pub open spec fn matches_step(
    res: Result<StateV, ErrV>,
    post: StateV,
    r: Result<(), crate::error::ScriptError>,
) -> bool {
    match res {
        Ok(s) => r is Ok && post == s,
        Err(e) => r matches Err(x) && x@ == e,
    }
}

/// The machine can go from `st0` before op `i` to `st1` before op `j`
/// by successful steps, under some answers from the outside world.
pub open spec fn reaches(
    st0: StateV,
    ops: Seq<TaggedOpV>,
    i: int,
    st1: StateV,
    j: int,
    lock_time: u32,
) -> bool
    decreases j - i,
{
    if i == j {
        st0 == st1
    } else if i < j && j <= ops.len() {
        exists|env: EnvV|
            #[trigger] step(st0, ops[i], lock_time, env) matches Ok(mid)
                && reaches(mid, ops, i + 1, st1, j, lock_time)
    } else {
        false
    }
}

/// Extending a successful run by one more successful step.
pub proof fn lemma_reaches_snoc(
    st0: StateV,
    ops: Seq<TaggedOpV>,
    i: int,
    st1: StateV,
    j: int,
    lock_time: u32,
    env: EnvV,
    st2: StateV,
)
    requires
        reaches(st0, ops, i, st1, j, lock_time),
        i <= j < ops.len(),
        step(st1, ops[j], lock_time, env) == Ok::<StateV, ErrV>(st2),
    ensures
        reaches(st0, ops, i, st2, j + 1, lock_time),
    decreases j - i,
{
    if i == j {
        assert(step(st0, ops[i], lock_time, env) matches Ok(mid)
            && reaches(mid, ops, i + 1, st2, j + 1, lock_time));
    } else {
        let env0 = choose|env0: EnvV|
            #[trigger] step(st0, ops[i], lock_time, env0) matches Ok(mid)
                && reaches(mid, ops, i + 1, st1, j, lock_time);
        let mid = step(st0, ops[i], lock_time, env0)->Ok_0;
        lemma_reaches_snoc(mid, ops, i + 1, st1, j, lock_time, env, st2);
        assert(step(st0, ops[i], lock_time, env0) matches Ok(m)
            && reaches(m, ops, i + 1, st2, j + 1, lock_time));
    }
}

} // verus!
