//! The executable interpreter: a two-stack machine with nested
//! conditional execution, verified against the mathematical step
//! semantics in `semantics`.

use vstd::prelude::*;
use crate::encoding::{
    lemma_long_minimal_out_of_range, lemma_short_in_range,
};
use crate::error::ScriptError;
use crate::script::{Op, Opcode, Script, TaggedOp};
use crate::semantics::{
    all_exec, items_wf, pop1, pop_bool_v, pop_bytes_v, pop_int_v, pushed_item, reset_deltas,
    StateV,
};
use crate::tx::{Ecc, SighashSource, Tx};
use crate::value::{
    canonical_bytes, value_wf, ByteArray, Integer, StackItem, StackItemDelta, StackValue,
};

verus! {

/// The view of a stack: each slot's mathematical image, bottom first.
pub open spec fn items_view(s: Seq<StackItem>) -> Seq<crate::value::ItemV> {
    s.map_values(|it: StackItem| it@)
}

/// Evaluates one input's lock script against its unlocking data in the
/// context of a hashed transaction and an ECC verifier.
pub struct ScriptInterpreter<E: Ecc, P: SighashSource> {
    pub stack: Vec<StackItem>,
    pub alt_stack: Vec<StackItem>,
    pub tx: Tx<P>,
    pub lock_script: Script,
    pub instruction_pointer: usize,
    pub exec_stack: Vec<bool>,
    pub ecc: E,
    pub input_idx: usize,
    pub is_p2sh: bool,
}

impl<E: Ecc, P: SighashSource> ScriptInterpreter<E, P> {
    /// The machine state the stacks and conditional stack denote.
    pub open spec fn sv(&self) -> StateV {
        StateV {
            stack: items_view(self.stack@),
            alt: items_view(self.alt_stack@),
            cond: self.exec_stack@,
        }
    }

    /// The evaluation context: everything a whole evaluation leaves
    /// alone.
    pub open spec fn eq_ctx(self, b: Self) -> bool {
        &&& self.tx == b.tx
        &&& self.lock_script == b.lock_script
        &&& self.ecc == b.ecc
        &&& self.input_idx == b.input_idx
        &&& self.is_p2sh == b.is_p2sh
    }

    /// Everything but the machine state: the evaluation context a step
    /// leaves alone, instruction pointer included.
    pub open spec fn eq_frame(self, b: Self) -> bool {
        self.eq_ctx(b) && self.instruction_pointer == b.instruction_pointer
    }

    /// Both stacks hold only well-formed values.
    pub open spec fn wf(&self) -> bool {
        items_wf(self.sv().stack) && items_wf(self.sv().alt)
    }

    /// Takes the top item off the main stack.
    fn pop(&mut self) -> (r: Result<StackItem, ScriptError>)
        ensures
            old(self).eq_frame(*final(self)),
            final(self).sv().alt == old(self).sv().alt,
            final(self).sv().cond == old(self).sv().cond,
            match pop1(old(self).sv().stack) {
                Ok((it, s2)) => r matches Ok(x) && x@ == it && final(self).sv().stack == s2,
                Err(e) => r matches Err(x) && x@ == e
                    && final(self).sv().stack == old(self).sv().stack,
            },
    {
        match self.stack.pop() {
            Some(item) => {
                proof {
                    assert(items_view(self.stack@)
                        =~= items_view(old(self).stack@).drop_last());
                    assert(item@ == items_view(old(self).stack@).last());
                }
                Ok(item)
            },
            None => Err(ScriptError::StackEmpty),
        }
    }

    /// Pops a value and coerces it to a boolean; byte arrays are
    /// rejected, the item is consumed either way.
    fn pop_bool(&mut self) -> (r: Result<bool, ScriptError>)
        ensures
            old(self).eq_frame(*final(self)),
            final(self).sv().alt == old(self).sv().alt,
            final(self).sv().cond == old(self).sv().cond,
            old(self).wf() ==> final(self).wf(),
            match pop_bool_v(old(self).sv().stack) {
                Ok((b, s2)) => r matches Ok(x) && x == b && final(self).sv().stack == s2,
                Err(e) => r matches Err(x) && x@ == e,
            },
    {
        proof {
            if old(self).wf() {
                lemma_pop_keeps_wf(old(self).sv().stack);
            }
        }
        let item = match self.pop() {
            Ok(it) => it,
            Err(e) => {
                return Err(e);
            },
        };
        match item.data {
            StackValue::ByteArray(_) => Err(ScriptError::InvalidDataType),
            StackValue::Integer(i) => Ok(i.value != 0),
            StackValue::Boolean(b) => Ok(b),
        }
    }

    /// Pops a value and coerces it to an integer; a byte array must be
    /// minimally encoded and its value must fit the numeric range.
    fn pop_int(&mut self) -> (r: Result<Integer, ScriptError>)
        requires
            old(self).wf(),
        ensures
            old(self).eq_frame(*final(self)),
            final(self).sv().alt == old(self).sv().alt,
            final(self).sv().cond == old(self).sv().cond,
            final(self).wf(),
            match pop_int_v(old(self).sv().stack) {
                Ok((i, s2)) => r matches Ok(x) && x@ == i && x.wf()
                    && final(self).sv().stack == s2,
                Err(e) => r matches Err(x) && x@ == e,
            },
    {
        proof {
            lemma_pop_keeps_wf(old(self).sv().stack);
            if old(self).sv().stack.len() > 0 {
                assert(value_wf(old(self).sv().stack.last().data));
            }
        }
        let item = match self.pop() {
            Ok(it) => it,
            Err(e) => {
                return Err(e);
            },
        };
        match item.data {
            StackValue::Integer(i) => Ok(i),
            StackValue::Boolean(b) => Ok(Integer { value: if b { 1 } else { 0 } }),
            StackValue::ByteArray(a) => {
                let n = a.data.len();
                let minimal = n == 0 || a.data[n - 1] % 128 != 0
                    || (n >= 2 && a.data[n - 2] >= 128);
                if !minimal {
                    Err(ScriptError::InvalidDataType)
                } else if n > 8 {
                    proof {
                        lemma_long_minimal_out_of_range(a@.data);
                    }
                    Err(ScriptError::InvalidInteger(crate::value::IntegerError::OutOfRange))
                } else {
                    proof {
                        lemma_short_in_range(a@.data);
                    }
                    let v = crate::encoding::decode_i64(&a.data);
                    Ok(Integer { value: v })
                }
            },
        }
    }

    /// Pops a value as its canonical byte encoding; cannot fail on a
    /// non-empty stack.
    fn pop_byte_array(&mut self) -> (r: Result<ByteArray, ScriptError>)
        requires
            old(self).wf(),
        ensures
            old(self).eq_frame(*final(self)),
            final(self).sv().alt == old(self).sv().alt,
            final(self).sv().cond == old(self).sv().cond,
            final(self).wf(),
            match pop_bytes_v(old(self).sv().stack) {
                Ok((b, s2)) => r matches Ok(x) && x@ == b && final(self).sv().stack == s2,
                Err(e) => r matches Err(x) && x@ == e,
            },
    {
        proof {
            lemma_pop_keeps_wf(old(self).sv().stack);
            if old(self).sv().stack.len() > 0 {
                assert(value_wf(old(self).sv().stack.last().data));
            }
        }
        let item = match self.pop() {
            Ok(it) => it,
            Err(e) => {
                return Err(e);
            },
        };
        match item.data {
            StackValue::ByteArray(a) => Ok(a),
            StackValue::Integer(i) => {
                let data = crate::encoding::encode_int(i.value);
                Ok(ByteArray::from_data(data))
            },
            StackValue::Boolean(b) => {
                let data = crate::encoding::encode_bool(b);
                Ok(ByteArray::from_data(data))
            },
        }
    }

    /// Pushes a value produced by `op`, naming it after the op's
    /// `idx`-th pushed name and annotating it with the op's push delta.
    fn push_tagged_data_idx(&mut self, op: &TaggedOp, data: StackValue, idx: usize)
        requires
            old(self).wf(),
            value_wf(data@),
        ensures
            old(self).eq_frame(*final(self)),
            final(self).sv().alt == old(self).sv().alt,
            final(self).sv().cond == old(self).sv().cond,
            final(self).wf(),
            final(self).sv().stack == old(self).sv().stack.push(
                pushed_item(op@, idx as int, data@),
            ),
    {
        let name: Option<String> = match &op.pushed_names {
            Some(ns) => {
                if idx < ns.len() {
                    match &ns[idx] {
                        Some(s) => Some(s.clone()),
                        None => None,
                    }
                } else {
                    None
                }
            },
            None => None,
        };
        let named_data: StackValue = match data {
            StackValue::ByteArray(a) => {
                let n2: Option<String> = match &name {
                    Some(s) => Some(s.clone()),
                    None => None,
                };
                StackValue::ByteArray(a.named_option(n2))
            },
            other => other,
        };
        let delta: StackItemDelta = match &op.op {
            Op::Code(c) => {
                if *c == Opcode::OP_CHECKLOCKTIMEVERIFY {
                    StackItemDelta::Moved
                } else {
                    StackItemDelta::Added
                }
            },
            _ => StackItemDelta::Added,
        };
        let item = StackItem { data: named_data, name, delta };
        proof {
            match op@.pushed_names {
                Some(ns) => {
                    assert(ns == op.pushed_names->0@.map_values(
                        |o: Option<String>| crate::value::name_view(o),
                    ));
                },
                None => {},
            }
            assert(item@ == pushed_item(op@, idx as int, data@));
        }
        self.stack.push(item);
        proof {
            assert(items_view(self.stack@)
                =~= items_view(old(self).stack@).push(pushed_item(op@, idx as int, data@)));
            lemma_push_keeps_wf(old(self).sv().stack, pushed_item(op@, idx as int, data@));
        }
    }

    /// Pushes the single value an op produces.
    fn push_tagged_data(&mut self, op: &TaggedOp, data: StackValue)
        requires
            old(self).wf(),
            value_wf(data@),
        ensures
            old(self).eq_frame(*final(self)),
            final(self).sv().alt == old(self).sv().alt,
            final(self).sv().cond == old(self).sv().cond,
            final(self).wf(),
            final(self).sv().stack == old(self).sv().stack.push(pushed_item(op@, 0, data@)),
    {
        self.push_tagged_data_idx(op, data, 0);
    }

    /// Whether every nested conditional took its branch.
    fn compute_executing(&self) -> (r: bool)
        ensures
            r == all_exec(self.exec_stack@),
    {
        let mut i: usize = 0;
        while i < self.exec_stack.len()
            invariant
                i <= self.exec_stack@.len(),
                forall|j: int| 0 <= j < i ==> self.exec_stack@[j],
            decreases self.exec_stack@.len() - i,
        {
            if !self.exec_stack[i] {
                return false;
            }
            i = i + 1;
        }
        true
    }

    /// The start-of-step discipline: sets every surviving slot's delta
    /// back to Untouched.
    fn reset_stack_deltas(&mut self)
        ensures
            old(self).eq_frame(*final(self)),
            final(self).sv().alt == old(self).sv().alt,
            final(self).sv().cond == old(self).sv().cond,
            final(self).sv().stack == reset_deltas(old(self).sv().stack),
            old(self).wf() ==> final(self).wf(),
    {
        let n = self.stack.len();
        let mut i: usize = 0;
        while i < n
            invariant
                n == self.stack@.len(),
                i <= n,
                old(self).eq_frame(*self),
                self.alt_stack@ == old(self).alt_stack@,
                self.exec_stack@ == old(self).exec_stack@,
                forall|j: int| 0 <= j < i ==> #[trigger] self.stack@[j]@
                    == (crate::value::ItemV {
                        delta: StackItemDelta::Untouched,
                        ..old(self).stack@[j]@
                    }),
                forall|j: int| i <= j < n ==> #[trigger] self.stack@[j]@
                    == old(self).stack@[j]@,
            decreases n - i,
        {
            let mut item = self.stack[i].clone();
            item.delta = StackItemDelta::Untouched;
            self.stack.set(i, item);
            i = i + 1;
        }
        proof {
            assert(items_view(self.stack@) =~= reset_deltas(items_view(old(self).stack@)));
            if old(self).wf() {
                assert forall|j: int| 0 <= j < final(self).sv().stack.len() implies value_wf(
                    #[trigger] final(self).sv().stack[j].data,
                ) by {
                    assert(value_wf(old(self).sv().stack[j].data));
                }
            }
        }
    }
}

impl<E: Ecc, P: SighashSource> ScriptInterpreter<E, P> {
    /// The numeric, comparison and boolean opcodes.
    fn op_numeric(&mut self, op: &TaggedOp, c: Opcode) -> (r: Result<(), ScriptError>)
        requires
            old(self).wf(),
            c == Opcode::OP_NOT || c == Opcode::OP_BOOLAND || c == Opcode::OP_BOOLOR
                || c == Opcode::OP_0NOTEQUAL || c == Opcode::OP_NUMEQUAL
                || c == Opcode::OP_NUMEQUALVERIFY || c == Opcode::OP_LESSTHAN
                || c == Opcode::OP_GREATERTHAN || c == Opcode::OP_LESSTHANOREQUAL
                || c == Opcode::OP_GREATERTHANOREQUAL || c == Opcode::OP_MIN
                || c == Opcode::OP_MAX || c == Opcode::OP_WITHIN || c == Opcode::OP_1ADD
                || c == Opcode::OP_1SUB || c == Opcode::OP_NEGATE || c == Opcode::OP_ABS
                || c == Opcode::OP_ADD || c == Opcode::OP_SUB || c == Opcode::OP_DIV
                || c == Opcode::OP_MOD,
        ensures
            old(self).eq_frame(*final(self)),
            final(self).wf(),
            exists|env: crate::semantics::EnvV| crate::semantics::matches_step(
                #[trigger] crate::semantics::step_opcode(
                    old(self).sv(),
                    op@,
                    c,
                    old(self).tx.lock_time,
                    env,
                ),
                final(self).sv(),
                r,
            ),
    {
        let res: Result<(), ScriptError> = match c {
            Opcode::OP_NOT => match self.pop_bool() {
                Err(e) => Err(e),
                Ok(b) => {
                    self.push_tagged_data(op, StackValue::Boolean(!b));
                    Ok(())
                },
            },
            Opcode::OP_BOOLAND | Opcode::OP_BOOLOR => match self.pop_bool() {
                Err(e) => Err(e),
                Ok(first) => match self.pop_bool() {
                    Err(e) => Err(e),
                    Ok(second) => {
                        let v = if c == Opcode::OP_BOOLAND {
                            first && second
                        } else {
                            first || second
                        };
                        self.push_tagged_data(op, StackValue::Boolean(v));
                        Ok(())
                    },
                },
            },
            Opcode::OP_0NOTEQUAL => match self.pop_int() {
                Err(e) => Err(e),
                Ok(i) => {
                    self.push_tagged_data(op, StackValue::Boolean(i.value != 0));
                    Ok(())
                },
            },
            Opcode::OP_NUMEQUAL | Opcode::OP_LESSTHAN | Opcode::OP_GREATERTHAN
            | Opcode::OP_LESSTHANOREQUAL | Opcode::OP_GREATERTHANOREQUAL => {
                match self.pop_int() {
                    Err(e) => Err(e),
                    Ok(b) => match self.pop_int() {
                        Err(e) => Err(e),
                        Ok(a) => {
                            let v = match c {
                                Opcode::OP_NUMEQUAL => a.value == b.value,
                                Opcode::OP_LESSTHAN => a.value < b.value,
                                Opcode::OP_GREATERTHAN => a.value > b.value,
                                Opcode::OP_LESSTHANOREQUAL => a.value <= b.value,
                                _ => a.value >= b.value,
                            };
                            self.push_tagged_data(op, StackValue::Boolean(v));
                            Ok(())
                        },
                    },
                }
            },
            Opcode::OP_NUMEQUALVERIFY => match self.pop_int() {
                Err(e) => Err(e),
                Ok(b) => match self.pop_int() {
                    Err(e) => Err(e),
                    Ok(a) => {
                        if a.value == b.value {
                            Ok(())
                        } else {
                            Err(ScriptError::VerifyFailed)
                        }
                    },
                },
            },
            Opcode::OP_MIN | Opcode::OP_MAX => match self.pop_int() {
                Err(e) => Err(e),
                Ok(b) => match self.pop_int() {
                    Err(e) => Err(e),
                    Ok(a) => {
                        let v = if c == Opcode::OP_MIN {
                            if a.value <= b.value {
                                a
                            } else {
                                b
                            }
                        } else {
                            if a.value >= b.value {
                                a
                            } else {
                                b
                            }
                        };
                        self.push_tagged_data(op, StackValue::Integer(v));
                        Ok(())
                    },
                },
            },
            Opcode::OP_WITHIN => match self.pop_int() {
                Err(e) => Err(e),
                Ok(hi) => match self.pop_int() {
                    Err(e) => Err(e),
                    Ok(lo) => match self.pop_int() {
                        Err(e) => Err(e),
                        Ok(v) => {
                            let b = v.value >= lo.value && v.value < hi.value;
                            self.push_tagged_data(op, StackValue::Boolean(b));
                            Ok(())
                        },
                    },
                },
            },
            Opcode::OP_1ADD | Opcode::OP_1SUB | Opcode::OP_NEGATE | Opcode::OP_ABS => {
                match self.pop_int() {
                    Err(e) => Err(e),
                    Ok(a) => match c {
                        Opcode::OP_1ADD => match a.checked_add(Integer { value: 1 }) {
                            Err(ie) => Err(ScriptError::InvalidInteger(ie)),
                            Ok(v) => {
                                self.push_tagged_data(op, StackValue::Integer(v));
                                Ok(())
                            },
                        },
                        Opcode::OP_1SUB => match a.checked_sub(Integer { value: 1 }) {
                            Err(ie) => Err(ScriptError::InvalidInteger(ie)),
                            Ok(v) => {
                                self.push_tagged_data(op, StackValue::Integer(v));
                                Ok(())
                            },
                        },
                        Opcode::OP_NEGATE => {
                            let v = a.negated();
                            self.push_tagged_data(op, StackValue::Integer(v));
                            Ok(())
                        },
                        _ => {
                            let v = a.absolute();
                            self.push_tagged_data(op, StackValue::Integer(v));
                            Ok(())
                        },
                    },
                }
            },
            Opcode::OP_ADD | Opcode::OP_SUB => match self.pop_int() {
                Err(e) => Err(e),
                Ok(b) => match self.pop_int() {
                    Err(e) => Err(e),
                    Ok(a) => {
                        let sum = if c == Opcode::OP_ADD {
                            a.checked_add(b)
                        } else {
                            a.checked_sub(b)
                        };
                        match sum {
                            Err(ie) => Err(ScriptError::InvalidInteger(ie)),
                            Ok(v) => {
                                self.push_tagged_data(op, StackValue::Integer(v));
                                Ok(())
                            },
                        }
                    },
                },
            },
            _ => match self.pop_int() {
                Err(e) => Err(e),
                Ok(b) => match self.pop_int() {
                    Err(e) => Err(e),
                    Ok(a) => {
                        if b.value == 0 {
                            Err(ScriptError::OpcodeMsg(
                                c,
                                if c == Opcode::OP_DIV {
                                    "Division by 0".to_owned()
                                } else {
                                    "Modulo by 0".to_owned()
                                },
                            ))
                        } else {
                            let v = if c == Opcode::OP_DIV {
                                a.div_trunc(b)
                            } else {
                                a.mod_trunc(b)
                            };
                            self.push_tagged_data(op, StackValue::Integer(v));
                            Ok(())
                        }
                    },
                },
            },
        };
        proof {
            let env0 = crate::semantics::EnvV {
                preimage: Seq::empty(),
                verdict: Ok(true),
            };
            assert(crate::semantics::matches_step(
                crate::semantics::step_opcode(
                    old(self).sv(),
                    op@,
                    c,
                    old(self).tx.lock_time,
                    env0,
                ),
                self.sv(),
                res,
            ));
        }
        res
    }

    /// The conditional-execution, verification and time-lock opcodes.
    fn op_control(&mut self, op: &TaggedOp, c: Opcode, is_executed: bool) -> (r: Result<
        (),
        ScriptError,
    >)
        requires
            old(self).wf(),
            is_executed == all_exec(old(self).sv().cond),
            c == Opcode::OP_IF || c == Opcode::OP_ELSE || c == Opcode::OP_ENDIF
                || c == Opcode::OP_VERIFY || c == Opcode::OP_CODESEPARATOR
                || c == Opcode::OP_CHECKLOCKTIMEVERIFY || c == Opcode::OP_CHECKSEQUENCEVERIFY,
        ensures
            old(self).eq_frame(*final(self)),
            final(self).wf(),
            exists|env: crate::semantics::EnvV| crate::semantics::matches_step(
                #[trigger] crate::semantics::step_opcode(
                    old(self).sv(),
                    op@,
                    c,
                    old(self).tx.lock_time,
                    env,
                ),
                final(self).sv(),
                r,
            ),
    {
        let res: Result<(), ScriptError> = match c {
            Opcode::OP_IF => {
                if is_executed {
                    match self.pop_bool() {
                        Err(e) => Err(e),
                        Ok(b) => {
                            self.exec_stack.push(b);
                            Ok(())
                        },
                    }
                } else {
                    self.exec_stack.push(false);
                    Ok(())
                }
            },
            Opcode::OP_ELSE => {
                let n = self.exec_stack.len();
                if n == 0 {
                    Err(ScriptError::UnbalancedConditionals(Opcode::OP_ELSE))
                } else {
                    let cur = self.exec_stack[n - 1];
                    self.exec_stack.set(n - 1, !cur);
                    Ok(())
                }
            },
            Opcode::OP_ENDIF => {
                match self.exec_stack.pop() {
                    None => Err(ScriptError::UnbalancedConditionals(Opcode::OP_ENDIF)),
                    Some(_) => Ok(()),
                }
            },
            Opcode::OP_VERIFY => match self.pop() {
                Err(e) => Err(e),
                Ok(item) => {
                    if item.to_bool() {
                        Ok(())
                    } else {
                        Err(ScriptError::VerifyFailed)
                    }
                },
            },
            Opcode::OP_CHECKLOCKTIMEVERIFY => match self.pop_int() {
                Err(e) => Err(e),
                Ok(t) => {
                    if t.value < 0 || t.value > u32::MAX as i64 {
                        Err(ScriptError::InvalidConversion)
                    } else if self.tx.lock_time < t.value as u32 {
                        Err(ScriptError::VerifyFailed)
                    } else {
                        self.push_tagged_data(op, StackValue::Integer(t));
                        Ok(())
                    }
                },
            },
            _ => Ok(()),
        };
        proof {
            let env0 = crate::semantics::EnvV {
                preimage: Seq::empty(),
                verdict: Ok(true),
            };
            assert(crate::semantics::matches_step(
                crate::semantics::step_opcode(
                    old(self).sv(),
                    op@,
                    c,
                    old(self).tx.lock_time,
                    env0,
                ),
                self.sv(),
                res,
            ));
        }
        res
    }
}

impl<E: Ecc, P: SighashSource> ScriptInterpreter<E, P> {
    /// The byte-array slicing and re-encoding opcodes.
    fn op_splice(&mut self, op: &TaggedOp, c: Opcode) -> (r: Result<(), ScriptError>)
        requires
            old(self).wf(),
            c == Opcode::OP_CAT || c == Opcode::OP_SPLIT || c == Opcode::OP_NUM2BIN
                || c == Opcode::OP_BIN2NUM || c == Opcode::OP_SIZE
                || c == Opcode::OP_REVERSEBYTES,
        ensures
            old(self).eq_frame(*final(self)),
            final(self).wf(),
            exists|env: crate::semantics::EnvV| crate::semantics::matches_step(
                #[trigger] crate::semantics::step_opcode(
                    old(self).sv(),
                    op@,
                    c,
                    old(self).tx.lock_time,
                    env,
                ),
                final(self).sv(),
                r,
            ),
    {
        let res: Result<(), ScriptError> = match c {
            Opcode::OP_CAT => match self.pop_byte_array() {
                Err(e) => Err(e),
                Ok(first) => match self.pop_byte_array() {
                    Err(e) => Err(e),
                    Ok(second) => {
                        let joined = second.concat(first);
                        self.push_tagged_data(op, StackValue::ByteArray(joined));
                        Ok(())
                    },
                },
            },
            Opcode::OP_SPLIT => match self.pop_int() {
                Err(e) => Err(e),
                Ok(at) => {
                    if at.value < 0 {
                        Err(ScriptError::InvalidConversion)
                    } else {
                        match self.pop_byte_array() {
                            Err(e) => Err(e),
                            Ok(a) => {
                                let alen = a.len();
                                if (at.value as u64) > (alen as u64) {
                                    Err(ScriptError::OpcodeMsg(
                                        Opcode::OP_SPLIT,
                                        "Split index out of bounds".to_owned(),
                                    ))
                                } else {
                                    let at_us: usize = at.value as usize;
                                    let (left, right) = a.split_at_index(at_us);
                                    self.push_tagged_data_idx(
                                        op,
                                        StackValue::ByteArray(left),
                                        0,
                                    );
                                    self.push_tagged_data_idx(
                                        op,
                                        StackValue::ByteArray(right),
                                        1,
                                    );
                                    Ok(())
                                }
                            },
                        }
                    }
                },
            },
            Opcode::OP_NUM2BIN => match self.pop_int() {
                Err(e) => Err(e),
                Ok(n) => match self.pop_int() {
                    Err(e) => Err(e),
                    Ok(x) => {
                        if n.value < 0 {
                            Err(ScriptError::OpcodeMsg(
                                Opcode::OP_NUM2BIN,
                                "Invalid number of bytes".to_owned(),
                            ))
                        } else if !crate::encoding::fits_check(x.value, n.value) {
                            Err(ScriptError::OpcodeMsg(
                                Opcode::OP_NUM2BIN,
                                "Integer does not fit".to_owned(),
                            ))
                        } else {
                            let data = crate::encoding::encode_int_fixed(
                                x.value,
                                n.value as u64,
                            );
                            let out = ByteArray {
                                data,
                                name: None,
                                function: crate::value::Function::Num2Bin,
                                preimage: None,
                            };
                            self.push_tagged_data(op, StackValue::ByteArray(out));
                            Ok(())
                        }
                    },
                },
            },
            Opcode::OP_BIN2NUM => match self.pop_byte_array() {
                Err(e) => Err(e),
                Ok(a) => {
                    let t = crate::encoding::trim_minimal(&a.data);
                    if t.len() > 8 {
                        proof {
                            lemma_long_minimal_out_of_range(t@);
                        }
                        Err(ScriptError::OpcodeMsg(
                            Opcode::OP_BIN2NUM,
                            "Number out of range".to_owned(),
                        ))
                    } else {
                        proof {
                            lemma_short_in_range(t@);
                        }
                        let v = crate::encoding::decode_i64(&t);
                        self.push_tagged_data(op, StackValue::Integer(Integer { value: v }));
                        Ok(())
                    }
                },
            },
            Opcode::OP_SIZE => {
                let n = self.stack.len();
                if n == 0 {
                    Err(ScriptError::StackEmpty)
                } else {
                    match &self.stack[n - 1].data {
                        StackValue::ByteArray(a) => {
                            let len_u: u64 = a.data.len() as u64;
                            if len_u > 0x7fff_ffff_ffff_ffff {
                                Err(ScriptError::InvalidInteger(
                                    crate::value::IntegerError::OutOfRange,
                                ))
                            } else {
                                let v = Integer { value: len_u as i64 };
                                proof {
                                    assert(old(self).sv().stack.last()
                                        == old(self).stack@[n - 1]@);
                                }
                                self.push_tagged_data(op, StackValue::Integer(v));
                                Ok(())
                            }
                        },
                        _ => {
                            proof {
                                assert(old(self).sv().stack.last()
                                    == old(self).stack@[n - 1]@);
                            }
                            Err(ScriptError::InvalidDataType)
                        },
                    }
                }
            },
            _ => match self.pop_byte_array() {
                Err(e) => Err(e),
                Ok(a) => {
                    let mut rev: Vec<u8> = Vec::new();
                    let alen = a.data.len();
                    let mut i: usize = 0;
                    while i < alen
                        invariant
                            alen == a@.data.len(),
                            i <= alen,
                            rev@.len() == i,
                            forall|j: int| 0 <= j < i ==> rev@[j] == a@.data[alen - 1 - j],
                        decreases alen - i,
                    {
                        rev.push(a.data[alen - 1 - i]);
                        i = i + 1;
                    }
                    proof {
                        assert(rev@ =~= crate::semantics::seq_reverse(a@.data));
                    }
                    let out = a.apply_function(rev, crate::value::Function::Reverse);
                    self.push_tagged_data(op, StackValue::ByteArray(out));
                    Ok(())
                },
            },
        };
        proof {
            let env0 = crate::semantics::EnvV {
                preimage: Seq::empty(),
                verdict: Ok(true),
            };
            assert(crate::semantics::matches_step(
                crate::semantics::step_opcode(
                    old(self).sv(),
                    op@,
                    c,
                    old(self).tx.lock_time,
                    env0,
                ),
                self.sv(),
                res,
            ));
        }
        res
    }

    /// The byte-equality and bitwise opcodes.
    fn op_bitlogic(&mut self, op: &TaggedOp, c: Opcode) -> (r: Result<(), ScriptError>)
        requires
            old(self).wf(),
            c == Opcode::OP_EQUAL || c == Opcode::OP_EQUALVERIFY || c == Opcode::OP_AND
                || c == Opcode::OP_OR || c == Opcode::OP_XOR,
        ensures
            old(self).eq_frame(*final(self)),
            final(self).wf(),
            exists|env: crate::semantics::EnvV| crate::semantics::matches_step(
                #[trigger] crate::semantics::step_opcode(
                    old(self).sv(),
                    op@,
                    c,
                    old(self).tx.lock_time,
                    env,
                ),
                final(self).sv(),
                r,
            ),
    {
        let res: Result<(), ScriptError> = match self.pop_byte_array() {
            Err(e) => Err(e),
            Ok(first) => match self.pop_byte_array() {
                Err(e) => Err(e),
                Ok(second) => {
                    if c == Opcode::OP_EQUAL || c == Opcode::OP_EQUALVERIFY {
                        let equal = bytes_eq(&first.data, &second.data);
                        if c == Opcode::OP_EQUALVERIFY {
                            if equal {
                                Ok(())
                            } else {
                                Err(ScriptError::EqualVerifyFailed(first, second))
                            }
                        } else {
                            self.push_tagged_data(op, StackValue::Boolean(equal));
                            Ok(())
                        }
                    } else {
                        if first.data.len() != second.data.len() {
                            Err(ScriptError::OpcodeMsg(
                                Opcode::OP_AND,
                                "Byte arrays have unequal length".to_owned(),
                            ))
                        } else {
                            let n = first.data.len();
                            let mut out: Vec<u8> = Vec::new();
                            let mut i: usize = 0;
                            while i < n
                                invariant
                                    n == first@.data.len(),
                                    n == second@.data.len(),
                                    i <= n,
                                    out@.len() == i,
                                    c == Opcode::OP_AND || c == Opcode::OP_OR
                                        || c == Opcode::OP_XOR,
                                    forall|j: int| 0 <= j < i ==> out@[j]
                                        == crate::semantics::bitwise_combine(
                                            c,
                                            first@.data,
                                            second@.data,
                                        )[j],
                                decreases n - i,
                            {
                                let v: u8 = if c == Opcode::OP_AND {
                                    first.data[i] & second.data[i]
                                } else if c == Opcode::OP_OR {
                                    first.data[i] | second.data[i]
                                } else {
                                    first.data[i] ^ second.data[i]
                                };
                                out.push(v);
                                i = i + 1;
                            }
                            proof {
                                assert(out@ =~= crate::semantics::bitwise_combine(
                                    c,
                                    first@.data,
                                    second@.data,
                                ));
                            }
                            let ba = ByteArray::from_data(out);
                            self.push_tagged_data(op, StackValue::ByteArray(ba));
                            Ok(())
                        }
                    }
                },
            },
        };
        proof {
            let env0 = crate::semantics::EnvV {
                preimage: Seq::empty(),
                verdict: Ok(true),
            };
            assert(crate::semantics::matches_step(
                crate::semantics::step_opcode(
                    old(self).sv(),
                    op@,
                    c,
                    old(self).tx.lock_time,
                    env0,
                ),
                self.sv(),
                res,
            ));
        }
        res
    }

    /// The digest opcodes.
    fn op_hash(&mut self, op: &TaggedOp, c: Opcode) -> (r: Result<(), ScriptError>)
        requires
            old(self).wf(),
            c == Opcode::OP_SHA1 || c == Opcode::OP_RIPEMD160 || c == Opcode::OP_SHA256
                || c == Opcode::OP_HASH160 || c == Opcode::OP_HASH256,
        ensures
            old(self).eq_frame(*final(self)),
            final(self).wf(),
            exists|env: crate::semantics::EnvV| crate::semantics::matches_step(
                #[trigger] crate::semantics::step_opcode(
                    old(self).sv(),
                    op@,
                    c,
                    old(self).tx.lock_time,
                    env,
                ),
                final(self).sv(),
                r,
            ),
    {
        let res: Result<(), ScriptError> = match self.pop_byte_array() {
            Err(e) => Err(e),
            Ok(a) => {
                let digest: Vec<u8> = match c {
                    Opcode::OP_SHA1 => crate::hashes::sha1_digest(&a.data),
                    Opcode::OP_RIPEMD160 => crate::hashes::ripemd160_digest(&a.data),
                    Opcode::OP_SHA256 => crate::hashes::sha256_digest(&a.data),
                    Opcode::OP_HASH160 => crate::hashes::hash160_digest(&a.data),
                    _ => crate::hashes::sha256d_digest(&a.data),
                };
                let tag: crate::value::Function = match c {
                    Opcode::OP_SHA1 => crate::value::Function::Sha1,
                    Opcode::OP_RIPEMD160 => crate::value::Function::Ripemd160,
                    Opcode::OP_SHA256 => crate::value::Function::Sha256,
                    Opcode::OP_HASH160 => crate::value::Function::Hash160,
                    _ => crate::value::Function::Hash256,
                };
                let out = a.apply_function(digest, tag);
                self.push_tagged_data(op, StackValue::ByteArray(out));
                Ok(())
            },
        };
        proof {
            let env0 = crate::semantics::EnvV {
                preimage: Seq::empty(),
                verdict: Ok(true),
            };
            assert(crate::semantics::matches_step(
                crate::semantics::step_opcode(
                    old(self).sv(),
                    op@,
                    c,
                    old(self).tx.lock_time,
                    env0,
                ),
                self.sv(),
                res,
            ));
        }
        res
    }
}

impl<E: Ecc, P: SighashSource> ScriptInterpreter<E, P> {
    /// The depth-addressed copy and reshuffle opcodes, and the moves
    /// between the two stacks.
    fn op_stack(&mut self, op: &TaggedOp, c: Opcode) -> (r: Result<(), ScriptError>)
        requires
            old(self).wf(),
            c == Opcode::OP_PICK || c == Opcode::OP_ROLL || c == Opcode::OP_TOALTSTACK
                || c == Opcode::OP_FROMALTSTACK,
        ensures
            old(self).eq_frame(*final(self)),
            final(self).wf(),
            exists|env: crate::semantics::EnvV| crate::semantics::matches_step(
                #[trigger] crate::semantics::step_opcode(
                    old(self).sv(),
                    op@,
                    c,
                    old(self).tx.lock_time,
                    env,
                ),
                final(self).sv(),
                r,
            ),
    {
        let res: Result<(), ScriptError> = match c {
            Opcode::OP_PICK | Opcode::OP_ROLL => match self.pop_int() {
                Err(e) => Err(e),
                Ok(depth) => {
                    let sl = self.stack.len();
                    if depth.value < 0 || (depth.value as u64) >= (sl as u64) {
                        Err(ScriptError::InvalidDepth(depth))
                    } else {
                        let idx: usize = sl - 1 - (depth.value as usize);
                        if c == Opcode::OP_PICK {
                            let mut item = self.stack[idx].clone();
                            item.delta = StackItemDelta::Added;
                            let ghost mid = self.sv().stack;
                            self.stack.push(item);
                            proof {
                                assert(items_view(self.stack@) =~= mid.push(
                                    crate::value::ItemV {
                                        delta: StackItemDelta::Added,
                                        ..mid[idx as int]
                                    },
                                ));
                                assert(value_wf(mid[idx as int].data));
                                lemma_push_keeps_wf(mid, crate::value::ItemV {
                                    delta: StackItemDelta::Added,
                                    ..mid[idx as int]
                                });
                            }
                            Ok(())
                        } else {
                            let ghost mid = self.sv().stack;
                            let mut item = self.stack.remove(idx);
                            item.delta = StackItemDelta::Moved;
                            let mut j: usize = idx;
                            while j < self.stack.len()
                                invariant
                                    idx <= j,
                                    self.stack@.len() == mid.len() - 1,
                                    idx < mid.len(),
                                    old(self).eq_frame(*self),
                                    items_view(self.alt_stack@) == old(self).sv().alt,
                                    self.exec_stack@ == old(self).sv().cond,
                                    items_wf(items_view(self.alt_stack@)),
                                    forall|k: int| 0 <= k < idx ==> #[trigger] self.stack@[k]@
                                        == mid[k],
                                    forall|k: int| idx <= k < j ==> #[trigger] self.stack@[k]@
                                        == (crate::value::ItemV {
                                            delta: StackItemDelta::MovedIndirectly,
                                            ..mid[k + 1]
                                        }),
                                    forall|k: int| j <= k < self.stack@.len()
                                        ==> #[trigger] self.stack@[k]@ == mid[k + 1],
                                decreases self.stack@.len() - j,
                            {
                                let mut it = self.stack[j].clone();
                                it.delta = StackItemDelta::MovedIndirectly;
                                self.stack.set(j, it);
                                j = j + 1;
                            }
                            self.stack.push(item);
                            proof {
                                let above = Seq::new(
                                    (mid.len() - idx - 1) as nat,
                                    |k: int| crate::value::ItemV {
                                        delta: StackItemDelta::MovedIndirectly,
                                        ..mid[idx + 1 + k]
                                    },
                                );
                                let moved = crate::value::ItemV {
                                    delta: StackItemDelta::Moved,
                                    ..mid[idx as int]
                                };
                                assert(items_view(self.stack@) =~= mid.take(idx as int) + above
                                    + seq![moved]);
                                assert forall|k: int| 0 <= k
                                    < items_view(self.stack@).len() implies value_wf(
                                    #[trigger] items_view(self.stack@)[k].data,
                                ) by {
                                    if k < idx {
                                        assert(value_wf(mid[k].data));
                                    } else if k < mid.len() - 1 {
                                        assert(value_wf(mid[k + 1].data));
                                    } else {
                                        assert(value_wf(mid[idx as int].data));
                                    }
                                }
                            }
                            Ok(())
                        }
                    }
                },
            },
            Opcode::OP_TOALTSTACK => match self.pop() {
                Err(e) => Err(e),
                Ok(item) => {
                    proof {
                        if old(self).sv().stack.len() > 0 {
                            assert(value_wf(old(self).sv().stack.last().data));
                            lemma_pop_keeps_wf(old(self).sv().stack);
                        }
                    }
                    let ghost alt_mid = self.sv().alt;
                    let ghost itv = item@;
                    self.alt_stack.push(item);
                    proof {
                        assert(items_view(self.alt_stack@) =~= alt_mid.push(itv));
                        lemma_push_keeps_wf(alt_mid, itv);
                    }
                    Ok(())
                },
            },
            _ => match self.alt_stack.pop() {
                None => Err(ScriptError::StackEmpty),
                Some(item) => {
                    proof {
                        assert(items_view(self.alt_stack@)
                            =~= items_view(old(self).alt_stack@).drop_last());
                        assert(item@ == items_view(old(self).alt_stack@).last());
                        assert(value_wf(item@.data));
                        lemma_pop_keeps_wf(old(self).sv().alt);
                    }
                    self.push_tagged_data(op, item.data);
                    Ok(())
                },
            },
        };
        proof {
            let env0 = crate::semantics::EnvV {
                preimage: Seq::empty(),
                verdict: Ok(true),
            };
            assert(crate::semantics::matches_step(
                crate::semantics::step_opcode(
                    old(self).sv(),
                    op@,
                    c,
                    old(self).tx.lock_time,
                    env0,
                ),
                self.sv(),
                res,
            ));
        }
        res
    }
}

impl<E: Ecc, P: SighashSource> ScriptInterpreter<E, P> {
    /// A table-driven pure stack permutation, or a not-implemented
    /// opcode.
    fn op_table(&mut self, c: Opcode) -> (r: Result<(), ScriptError>)
        requires
            old(self).wf(),
        ensures
            old(self).eq_frame(*final(self)),
            final(self).wf(),
            crate::semantics::matches_step(
                crate::semantics::step_table(old(self).sv(), c),
                final(self).sv(),
                r,
            ),
    {
        proof {
            crate::script::lemma_table_wf(c);
        }
        let (arity, maybe_order, deltas) = crate::script::behavior(c);
        let order = match maybe_order {
            None => {
                return Err(ScriptError::NotImplemented);
            },
            Some(o) => o,
        };
        let sl = self.stack.len();
        if sl < arity {
            return Err(ScriptError::StackEmpty);
        }
        let base = sl - arity;
        let ghost pre = self.sv().stack;
        let ghost window = pre.skip(base as int);
        let ghost out_spec = Seq::new(
            crate::script::table_order(c)->0.len(),
            |i: int| crate::value::ItemV {
                delta: crate::script::table_delta(c)[i],
                ..window[crate::script::table_order(c)->0[i]]
            },
        );
        proof {
            assert forall|k: int| 0 <= k < order@.len() implies 0 <= #[trigger] order@[k]
                < arity by {
                assert(order@.map_values(|x: usize| x as int)[k] == order@[k] as int);
                assert(0 <= crate::script::table_order(c)->0[k] < crate::script::table_arity(c));
            }
        }
        let mut out: Vec<StackItem> = Vec::new();
        let mut i: usize = 0;
        while i < order.len()
            invariant
                i <= order@.len(),
                out@.len() == i,
                sl == pre.len(),
                base == sl - arity,
                arity == crate::script::table_arity(c),
                sl == self.stack@.len(),
                pre == items_view(self.stack@),
                window == pre.skip(base as int),
                crate::script::table_order(c) matches Some(so)
                    && order@.map_values(|x: usize| x as int) == so,
                deltas@ == crate::script::table_delta(c),
                order@.len() == deltas@.len(),
                forall|k: int| 0 <= k < order@.len() ==> 0 <= #[trigger] order@[k] < arity,
                out_spec == Seq::new(
                    crate::script::table_order(c)->0.len(),
                    |k: int| crate::value::ItemV {
                        delta: crate::script::table_delta(c)[k],
                        ..window[crate::script::table_order(c)->0[k]]
                    },
                ),
                forall|k: int| 0 <= k < i ==> #[trigger] out@[k]@ == out_spec[k],
            decreases order@.len() - i,
        {
            let src: usize = base + order[i];
            let mut item = self.stack[src].clone();
            item.delta = deltas[i];
            proof {
                assert(pre[src as int] == window[order@[i as int] as int]);
            }
            out.push(item);
            i = i + 1;
        }
        self.stack.truncate(base);
        let mut j: usize = 0;
        let olen = out.len();
        while j < olen
            invariant
                j <= olen,
                olen == out@.len(),
                out_spec.len() == olen,
                forall|k: int| 0 <= k < olen ==> #[trigger] out@[k]@ == out_spec[k],
                old(self).eq_frame(*self),
                items_view(self.alt_stack@) == old(self).sv().alt,
                self.exec_stack@ == old(self).sv().cond,
                items_view(self.stack@) =~= pre.take(base as int) + out_spec.take(j as int),
                pre == old(self).sv().stack,
                base <= pre.len(),
            decreases olen - j,
        {
            let ghost prev = self.stack@;
            self.stack.push(out[j].clone());
            proof {
                assert(items_view(self.stack@) =~= items_view(prev).push(out@[j as int]@));
                assert(items_view(self.stack@) =~= pre.take(base as int) + out_spec.take(
                    j + 1,
                ));
            }
            j = j + 1;
        }
        proof {
            assert(out_spec.take(olen as int) =~= out_spec);
            assert(items_view(self.stack@) == pre.take(base as int) + out_spec);
            assert forall|k: int| 0 <= k < items_view(self.stack@).len() implies value_wf(
                #[trigger] items_view(self.stack@)[k].data,
            ) by {
                if k < base {
                    assert(value_wf(pre[k].data));
                } else {
                    let oi = crate::script::table_order(c)->0[k - base];
                    assert(items_view(self.stack@)[k].data == window[oi].data);
                    assert(window[oi] == pre[base + oi]);
                    assert(value_wf(pre[base + oi].data));
                }
            }
        }
        Ok(())
    }

    /// The signature-checking opcodes: transaction signatures check the
    /// double-SHA-256 of the sighash preimage, data signatures the
    /// SHA-256 of a popped message; the verifier's answer decides the
    /// outcome.
    fn op_checksig(&mut self, op: &TaggedOp, c: Opcode) -> (r: Result<(), ScriptError>)
        requires
            old(self).wf(),
            c == Opcode::OP_CHECKSIG || c == Opcode::OP_CHECKSIGVERIFY
                || c == Opcode::OP_CHECKDATASIG || c == Opcode::OP_CHECKDATASIGVERIFY,
        ensures
            old(self).eq_frame(*final(self)),
            final(self).wf(),
            exists|env: crate::semantics::EnvV| crate::semantics::matches_step(
                #[trigger] crate::semantics::step_opcode(
                    old(self).sv(),
                    op@,
                    c,
                    old(self).tx.lock_time,
                    env,
                ),
                final(self).sv(),
                r,
            ),
    {
        let is_data = c == Opcode::OP_CHECKDATASIG || c == Opcode::OP_CHECKDATASIGVERIFY;
        let is_verify = c == Opcode::OP_CHECKSIGVERIFY || c == Opcode::OP_CHECKDATASIGVERIFY;
        let pubkey = match self.pop_byte_array() {
            Err(e) => {
                proof {
                    let env0 = crate::semantics::EnvV {
                        preimage: Seq::empty(),
                        verdict: Ok(true),
                    };
                    assert(crate::semantics::matches_step(
                        crate::semantics::step_opcode(
                            old(self).sv(),
                            op@,
                            c,
                            old(self).tx.lock_time,
                            env0,
                        ),
                        self.sv(),
                        Err::<(), ScriptError>(e),
                    ));
                }
                return Err(e);
            },
            Ok(p) => p,
        };
        let (msg, sig_ser, preimage_view): (ByteArray, ByteArray, Ghost<Seq<u8>>) = if is_data {
            let msg_data = match self.pop_byte_array() {
                Err(e) => {
                    proof {
                        let env0 = crate::semantics::EnvV {
                            preimage: Seq::empty(),
                            verdict: Ok(true),
                        };
                        assert(crate::semantics::matches_step(
                            crate::semantics::step_opcode(
                                old(self).sv(),
                                op@,
                                c,
                                old(self).tx.lock_time,
                                env0,
                            ),
                            self.sv(),
                            Err::<(), ScriptError>(e),
                        ));
                    }
                    return Err(e);
                },
                Ok(m) => m,
            };
            let sig = match self.pop_byte_array() {
                Err(e) => {
                    proof {
                        let env0 = crate::semantics::EnvV {
                            preimage: Seq::empty(),
                            verdict: Ok(true),
                        };
                        assert(crate::semantics::matches_step(
                            crate::semantics::step_opcode(
                                old(self).sv(),
                                op@,
                                c,
                                old(self).tx.lock_time,
                                env0,
                            ),
                            self.sv(),
                            Err::<(), ScriptError>(e),
                        ));
                    }
                    return Err(e);
                },
                Ok(s) => s,
            };
            let digest = crate::hashes::sha256_digest(&msg_data.data);
            let msg = msg_data.apply_function(digest, crate::value::Function::Sha256);
            (msg, sig, Ghost(Seq::empty()))
        } else {
            let sig = match self.pop_byte_array() {
                Err(e) => {
                    proof {
                        let env0 = crate::semantics::EnvV {
                            preimage: Seq::empty(),
                            verdict: Ok(true),
                        };
                        assert(crate::semantics::matches_step(
                            crate::semantics::step_opcode(
                                old(self).sv(),
                                op@,
                                c,
                                old(self).tx.lock_time,
                                env0,
                            ),
                            self.sv(),
                            Err::<(), ScriptError>(e),
                        ));
                    }
                    return Err(e);
                },
                Ok(s) => s,
            };
            let slen = sig.data.len();
            let mut ser: Vec<u8> = sig.data.clone();
            let flag: u32 = if slen > 0 {
                let f = sig.data[slen - 1] as u32;
                ser.pop();
                f
            } else {
                crate::tx::SIGHASH_DEFAULT
            };
            let preimage: Vec<u8> = self.tx.sighash.preimage_ser(self.input_idx, flag);
            let ghost pv = preimage@;
            let digest = crate::hashes::sha256d_digest(&preimage);
            let msg = ByteArray::from_data(preimage).apply_function(
                digest,
                crate::value::Function::Hash256,
            );
            let sig_ser = sig.apply_function(ser, crate::value::Function::ToDataSig);
            (msg, sig_ser, Ghost(pv))
        };
        let verdict = self.ecc.verify(&pubkey.data, &msg.data, &sig_ser.data);
        let ghost vv: Result<bool, crate::error::EccErrorV> = match &verdict {
            Ok(b) => Ok(*b),
            Err(e) => Err(e@),
        };
        let ghost env0 = crate::semantics::EnvV { preimage: preimage_view@, verdict: vv };
        let res: Result<(), ScriptError> = match verdict {
            Err(crate::error::EccError::InvalidPubkey) => Err(ScriptError::InvalidPubKey(pubkey)),
            Err(crate::error::EccError::InvalidSignatureFormat) => Err(
                ScriptError::InvalidSignatureFormat(sig_ser),
            ),
            Err(crate::error::EccError::Other(m)) => Err(ScriptError::OpcodeMsg(c, m)),
            Ok(validity) => {
                if !is_verify {
                    if sig_ser.data.len() > 0 && !validity {
                        Err(ScriptError::InvalidSignature(msg, sig_ser))
                    } else {
                        self.push_tagged_data(op, StackValue::Boolean(validity));
                        Ok(())
                    }
                } else {
                    if !validity {
                        Err(ScriptError::InvalidSignature(msg, sig_ser))
                    } else {
                        Ok(())
                    }
                }
            },
        };
        proof {
            assert(crate::semantics::matches_step(
                crate::semantics::step_opcode(
                    old(self).sv(),
                    op@,
                    c,
                    old(self).tx.lock_time,
                    env0,
                ),
                self.sv(),
                res,
            ));
        }
        res
    }
}

/// Running a script from op `i0` fails with `e` at op `i`: the steps
/// before `i` succeed and op `i` fails.
pub open spec fn fails_at_op(
    st0: StateV,
    ops: Seq<crate::script::TaggedOpV>,
    i0: int,
    i: int,
    lock_time: u32,
    e: crate::error::ErrV,
) -> bool {
    exists|st: StateV, env: crate::semantics::EnvV|
        #![trigger crate::semantics::reaches(st0, ops, i0, st, i, lock_time),
            crate::semantics::step(st, ops[i], lock_time, env)]
        crate::semantics::reaches(st0, ops, i0, st, i, lock_time)
            && crate::semantics::step(st, ops[i], lock_time, env)
            == Err::<StateV, crate::error::ErrV>(e)
}

/// An attempt to run a script from op `i0` fails with `e`: some prefix
/// of steps succeeds and the next op fails.
pub open spec fn run_fails_at(
    st0: StateV,
    ops: Seq<crate::script::TaggedOpV>,
    i0: int,
    lock_time: u32,
    e: crate::error::ErrV,
) -> bool {
    exists|i: int| i0 <= i < ops.len() && #[trigger] fails_at_op(st0, ops, i0, i, lock_time, e)
}

impl<E: Ecc, P: SighashSource> ScriptInterpreter<E, P> {
    /// Dispatches one executing opcode to its family.
    fn run_opcode(&mut self, op: &TaggedOp, opcode: Opcode, is_executed: bool) -> (r: Result<
        (),
        ScriptError,
    >)
        requires
            old(self).wf(),
            is_executed == all_exec(old(self).sv().cond),
        ensures
            old(self).eq_frame(*final(self)),
            final(self).wf(),
            exists|env: crate::semantics::EnvV| crate::semantics::matches_step(
                #[trigger] crate::semantics::step_opcode(
                    old(self).sv(),
                    op@,
                    opcode,
                    old(self).tx.lock_time,
                    env,
                ),
                final(self).sv(),
                r,
            ),
    {
        match opcode {
            Opcode::OP_PICK | Opcode::OP_ROLL | Opcode::OP_TOALTSTACK
            | Opcode::OP_FROMALTSTACK => self.op_stack(op, opcode),
            Opcode::OP_CAT | Opcode::OP_SPLIT | Opcode::OP_NUM2BIN | Opcode::OP_BIN2NUM
            | Opcode::OP_SIZE | Opcode::OP_REVERSEBYTES => self.op_splice(op, opcode),
            Opcode::OP_EQUAL | Opcode::OP_EQUALVERIFY | Opcode::OP_AND | Opcode::OP_OR
            | Opcode::OP_XOR => self.op_bitlogic(op, opcode),
            Opcode::OP_SHA1 | Opcode::OP_RIPEMD160 | Opcode::OP_SHA256 | Opcode::OP_HASH160
            | Opcode::OP_HASH256 => self.op_hash(op, opcode),
            Opcode::OP_NOT | Opcode::OP_BOOLAND | Opcode::OP_BOOLOR | Opcode::OP_0NOTEQUAL
            | Opcode::OP_NUMEQUAL | Opcode::OP_NUMEQUALVERIFY | Opcode::OP_LESSTHAN
            | Opcode::OP_GREATERTHAN | Opcode::OP_LESSTHANOREQUAL
            | Opcode::OP_GREATERTHANOREQUAL | Opcode::OP_MIN | Opcode::OP_MAX
            | Opcode::OP_WITHIN | Opcode::OP_1ADD | Opcode::OP_1SUB | Opcode::OP_NEGATE
            | Opcode::OP_ABS | Opcode::OP_ADD | Opcode::OP_SUB | Opcode::OP_DIV
            | Opcode::OP_MOD => self.op_numeric(op, opcode),
            Opcode::OP_IF | Opcode::OP_ELSE | Opcode::OP_ENDIF | Opcode::OP_VERIFY
            | Opcode::OP_CODESEPARATOR | Opcode::OP_CHECKLOCKTIMEVERIFY
            | Opcode::OP_CHECKSEQUENCEVERIFY => self.op_control(op, opcode, is_executed),
            Opcode::OP_CHECKSIG | Opcode::OP_CHECKSIGVERIFY | Opcode::OP_CHECKDATASIG
            | Opcode::OP_CHECKDATASIGVERIFY => self.op_checksig(op, opcode),
            _ => {
                let r = self.op_table(opcode);
                proof {
                    let env0 = crate::semantics::EnvV {
                        preimage: Seq::empty(),
                        verdict: Ok(true),
                    };
                    assert(crate::semantics::matches_step(
                        crate::semantics::step_opcode(
                            old(self).sv(),
                            op@,
                            opcode,
                            old(self).tx.lock_time,
                            env0,
                        ),
                        self.sv(),
                        r,
                    ));
                }
                r
            },
        }
    }

    /// One whole step on a tagged op: deltas are reset, suppressed ops
    /// do nothing, pushes push, invalid ops fail, opcodes dispatch. The
    /// instruction pointer is not touched.
    fn run_op(&mut self, op: &TaggedOp) -> (r: Result<(), ScriptError>)
        requires
            old(self).wf(),
            crate::semantics::op_wf(op@),
        ensures
            old(self).eq_frame(*final(self)),
            final(self).wf(),
            exists|env: crate::semantics::EnvV| crate::semantics::matches_step(
                #[trigger] crate::semantics::step(
                    old(self).sv(),
                    op@,
                    old(self).tx.lock_time,
                    env,
                ),
                final(self).sv(),
                r,
            ),
    {
        self.reset_stack_deltas();
        let ghost mid = *self;
        let is_executed = self.compute_executing();
        let is_cond: bool = match &op.op {
            Op::Code(c) => *c == Opcode::OP_IF || *c == Opcode::OP_ELSE
                || *c == Opcode::OP_ENDIF,
            _ => false,
        };
        if !is_cond && !is_executed {
            let r: Result<(), ScriptError> = Ok(());
            proof {
                let env0 = crate::semantics::EnvV {
                    preimage: Seq::empty(),
                    verdict: Ok(true),
                };
                assert(crate::semantics::matches_step(
                    crate::semantics::step(old(self).sv(), op@, old(self).tx.lock_time, env0),
                    self.sv(),
                    r,
                ));
            }
            return r;
        }
        let res: Result<(), ScriptError> = match &op.op {
            Op::PushBoolean(b) => {
                self.push_tagged_data(op, StackValue::Boolean(*b));
                Ok(())
            },
            Op::PushInteger(i) => {
                self.push_tagged_data(op, StackValue::Integer(*i));
                Ok(())
            },
            Op::PushByteArray { array, is_minimal: _ } => {
                self.push_tagged_data(op, StackValue::ByteArray(array.clone()));
                Ok(())
            },
            Op::Code(code) => {
                let r = self.run_opcode(op, *code, is_executed);
                proof {
                    let env = choose|env: crate::semantics::EnvV|
                        crate::semantics::matches_step(
                            #[trigger] crate::semantics::step_opcode(
                                mid.sv(),
                                op@,
                                op.op->Code_0,
                                mid.tx.lock_time,
                                env,
                            ),
                            self.sv(),
                            r,
                        );
                    assert(crate::semantics::matches_step(
                        crate::semantics::step(old(self).sv(), op@, old(self).tx.lock_time, env),
                        self.sv(),
                        r,
                    ));
                }
                return r;
            },
            Op::Invalid(code) => Err(ScriptError::InvalidOpcode(*code)),
        };
        proof {
            let env0 = crate::semantics::EnvV {
                preimage: Seq::empty(),
                verdict: Ok(true),
            };
            assert(crate::semantics::matches_step(
                crate::semantics::step(old(self).sv(), op@, old(self).tx.lock_time, env0),
                self.sv(),
                res,
            ));
        }
        res
    }

    /// Builds an interpreter for one input of a hashed transaction: its
    /// lock script and pay-to-script-hash flag must be populated.
    pub fn new(tx: Tx<P>, input_idx: usize, ecc: E) -> (r: Self)
        requires
            input_idx < tx.inputs@.len(),
            tx.inputs@[input_idx as int].lock_script is Some,
            tx.inputs@[input_idx as int].is_p2sh is Some,
        ensures
            r.sv().stack.len() == 0,
            r.sv().alt.len() == 0,
            r.sv().cond.len() == 0,
            r.instruction_pointer == 0,
            r.tx == tx,
            r.ecc == ecc,
            r.input_idx == input_idx,
            r.lock_script@ == tx.inputs@[input_idx as int].lock_script->0@,
            r.is_p2sh == tx.inputs@[input_idx as int].is_p2sh->0,
            r.wf(),
    {
        let lock_script: Script = match &tx.inputs[input_idx].lock_script {
            Some(s) => s.clone(),
            None => vstd::pervasive::unreached(),
        };
        let is_p2sh: bool = match &tx.inputs[input_idx].is_p2sh {
            Some(b) => *b,
            None => vstd::pervasive::unreached(),
        };
        let r = ScriptInterpreter {
            stack: Vec::new(),
            alt_stack: Vec::new(),
            instruction_pointer: 0,
            lock_script,
            is_p2sh,
            tx,
            input_idx,
            exec_stack: Vec::new(),
            ecc,
        };
        proof {
            assert(r.sv().stack =~= Seq::<crate::value::ItemV>::empty());
            assert(r.sv().alt =~= Seq::<crate::value::ItemV>::empty());
        }
        r
    }

    /// Whether the evaluation has consumed the whole lock script.
    pub fn is_finished(&self) -> (r: bool)
        ensures
            r == (self.instruction_pointer >= self.lock_script@.len()),
    {
        self.instruction_pointer >= self.lock_script.ops.len()
    }

    /// The instruction pointer: the index of the next lock-script op.
    pub fn instruction_pointer(&self) -> (r: usize)
        ensures
            r == self.instruction_pointer,
    {
        self.instruction_pointer
    }

    /// The main stack, bottom first.
    pub fn stack(&self) -> (r: &Vec<StackItem>)
        ensures
            items_view(r@) == self.sv().stack,
    {
        &self.stack
    }

    /// The alt stack, bottom first.
    pub fn alt_stack(&self) -> (r: &Vec<StackItem>)
        ensures
            items_view(r@) == self.sv().alt,
    {
        &self.alt_stack
    }

    /// The conditional-execution stack, outermost first.
    pub fn exec_stack(&self) -> (r: &Vec<bool>)
        ensures
            r@ == self.sv().cond,
    {
        &self.exec_stack
    }

    /// Executes the next op of the lock script; the instruction pointer
    /// advances only on success.
    pub fn run_next_op(&mut self) -> (r: Result<(), ScriptError>)
        requires
            old(self).wf(),
            crate::semantics::script_wf(old(self).lock_script@),
        ensures
            old(self).eq_ctx(*final(self)),
            final(self).wf(),
            old(self).instruction_pointer >= old(self).lock_script@.len() ==> (
                r matches Err(e) && e@ == crate::error::ErrV::ScriptFinished
                    && *final(self) == *old(self)
            ),
            old(self).instruction_pointer < old(self).lock_script@.len() ==> exists|
                env: crate::semantics::EnvV,
            | crate::semantics::matches_step(
                #[trigger] crate::semantics::step(
                    old(self).sv(),
                    old(self).lock_script@[old(self).instruction_pointer as int],
                    old(self).tx.lock_time,
                    env,
                ),
                final(self).sv(),
                r,
            ) && (r is Ok ==> final(self).instruction_pointer
                == old(self).instruction_pointer + 1) && (r is Err
                ==> final(self).instruction_pointer == old(self).instruction_pointer),
    {
        if self.instruction_pointer >= self.lock_script.ops.len() {
            return Err(ScriptError::ScriptFinished);
        }
        let op = self.lock_script.ops[self.instruction_pointer].clone();
        proof {
            assert(op@ == old(self).lock_script@[old(self).instruction_pointer as int]);
        }
        match self.run_op(&op) {
            Ok(()) => {
                self.instruction_pointer = self.instruction_pointer + 1;
                Ok(())
            },
            Err(e) => Err(e),
        }
    }

    /// Runs every op of the input's unlocking script through the
    /// dispatcher, leaving out the final push (the redeem script) of a
    /// pay-to-script-hash input. The instruction pointer is not
    /// touched.
    pub fn push_input_data(&mut self) -> (r: Result<(), ScriptError>)
        requires
            old(self).wf(),
            old(self).input_idx < old(self).tx.inputs@.len(),
            crate::semantics::script_wf(
                old(self).tx.inputs@[old(self).input_idx as int].script@,
            ),
            old(self).is_p2sh ==> old(self).tx.inputs@[old(
                self,
            ).input_idx as int].script@.len() >= 1,
        ensures
            old(self).eq_frame(*final(self)),
            final(self).wf(),
            ({
                let ops = old(self).tx.inputs@[old(self).input_idx as int].script@;
                let end = ops.len() - (if old(self).is_p2sh { 1int } else { 0int });
                let ran = ops.take(end);
                &&& r is Ok ==> crate::semantics::reaches(
                    old(self).sv(),
                    ran,
                    0,
                    final(self).sv(),
                    end,
                    old(self).tx.lock_time,
                )
                &&& r matches Err(e) ==> run_fails_at(
                    old(self).sv(),
                    ran,
                    0,
                    old(self).tx.lock_time,
                    e@,
                )
            }),
    {
        let ghost ops_full = old(self).tx.inputs@[old(self).input_idx as int].script@;
        let ghost lt = old(self).tx.lock_time;
        let len = self.tx.inputs[self.input_idx].script.ops.len();
        proof {
            assert(ops_full.len() == len);
        }
        let end: usize = if self.is_p2sh {
            len - 1
        } else {
            len
        };
        let ghost ran = ops_full.take(end as int);
        proof {
            assert(end as int == ops_full.len() - (if old(self).is_p2sh {
                1int
            } else {
                0int
            }));
        }
        let mut i: usize = 0;
        while i < end
            invariant
                i <= end,
                end <= len,
                len == ops_full.len(),
                old(self).eq_frame(*self),
                self.wf(),
                ops_full == self.tx.inputs@[self.input_idx as int].script@,
                ops_full == old(self).tx.inputs@[old(self).input_idx as int].script@,
                self.input_idx < self.tx.inputs@.len(),
                crate::semantics::script_wf(ops_full),
                ran == ops_full.take(end as int),
                end as int == ops_full.len() - (if old(self).is_p2sh {
                    1int
                } else {
                    0int
                }),
                lt == self.tx.lock_time,
                lt == old(self).tx.lock_time,
                crate::semantics::reaches(old(self).sv(), ran, 0, self.sv(), i as int, lt),
            decreases end - i,
        {
            let op = self.tx.inputs[self.input_idx].script.ops[i].clone();
            proof {
                assert(op@ == ops_full[i as int]);
                assert(ran[i as int] == ops_full[i as int]);
            }
            let ghost pre_step = self.sv();
            match self.run_op(&op) {
                Ok(()) => {
                    proof {
                        let env = choose|env: crate::semantics::EnvV|
                            crate::semantics::matches_step(
                                #[trigger] crate::semantics::step(pre_step, op@, lt, env),
                                self.sv(),
                                Ok::<(), ScriptError>(()),
                            );
                        crate::semantics::lemma_reaches_snoc(
                            old(self).sv(),
                            ran,
                            0,
                            pre_step,
                            i as int,
                            lt,
                            env,
                            self.sv(),
                        );
                    }
                },
                Err(e) => {
                    proof {
                        let env = choose|env: crate::semantics::EnvV|
                            crate::semantics::matches_step(
                                #[trigger] crate::semantics::step(pre_step, op@, lt, env),
                                self.sv(),
                                Err::<(), ScriptError>(e),
                            );
                        assert(crate::semantics::step(pre_step, ran[i as int], lt, env)
                            == Err::<StateV, crate::error::ErrV>(e@));
                        assert(crate::semantics::reaches(
                            old(self).sv(),
                            ran,
                            0,
                            pre_step,
                            i as int,
                            lt,
                        ));
                        assert(fails_at_op(old(self).sv(), ran, 0, i as int, lt, e@));
                        assert(run_fails_at(old(self).sv(), ran, 0, lt, e@));
                    }
                    return Err(e);
                },
            }
            i = i + 1;
        }
        Ok(())
    }

    /// Drives the lock script to completion and returns the truth of
    /// the bottom stack slot; an empty final stack is reported as a
    /// stack underflow.
    pub fn run(&mut self) -> (r: Result<bool, ScriptError>)
        requires
            old(self).wf(),
            crate::semantics::script_wf(old(self).lock_script@),
            old(self).instruction_pointer <= old(self).lock_script@.len(),
        ensures
            old(self).eq_ctx(*final(self)),
            final(self).wf(),
            ({
                let ops = old(self).lock_script@;
                let lt = old(self).tx.lock_time;
                let i0 = old(self).instruction_pointer as int;
                &&& r matches Ok(b) ==> crate::semantics::reaches(
                    old(self).sv(),
                    ops,
                    i0,
                    final(self).sv(),
                    ops.len() as int,
                    lt,
                ) && final(self).instruction_pointer == ops.len()
                    && final(self).sv().stack.len() > 0 && b == crate::value::truthy(
                    final(self).sv().stack[0].data,
                )
                &&& r matches Err(e) ==> (e@ == crate::error::ErrV::StackEmpty
                    && crate::semantics::reaches(
                    old(self).sv(),
                    ops,
                    i0,
                    final(self).sv(),
                    ops.len() as int,
                    lt,
                ) && final(self).sv().stack.len() == 0
                    && final(self).instruction_pointer == ops.len()) || (i0
                    <= final(self).instruction_pointer < ops.len() && fails_at_op(
                    old(self).sv(),
                    ops,
                    i0,
                    final(self).instruction_pointer as int,
                    lt,
                    e@,
                ))
            }),
    {
        let ghost ops = old(self).lock_script@;
        let ghost lt = old(self).tx.lock_time;
        let ghost i0 = old(self).instruction_pointer as int;
        while !(self.instruction_pointer >= self.lock_script.ops.len())
            invariant
                old(self).eq_ctx(*self),
                self.wf(),
                crate::semantics::script_wf(self.lock_script@),
                ops == self.lock_script@,
                ops == old(self).lock_script@,
                lt == self.tx.lock_time,
                lt == old(self).tx.lock_time,
                i0 == old(self).instruction_pointer as int,
                i0 <= self.instruction_pointer as int <= ops.len(),
                crate::semantics::reaches(
                    old(self).sv(),
                    ops,
                    i0,
                    self.sv(),
                    self.instruction_pointer as int,
                    lt,
                ),
            decreases ops.len() - self.instruction_pointer,
        {
            let ghost pre_step = self.sv();
            let ghost ip = self.instruction_pointer as int;
            match self.run_next_op() {
                Ok(()) => {
                    proof {
                        let env = choose|env: crate::semantics::EnvV|
                            crate::semantics::matches_step(
                                #[trigger] crate::semantics::step(pre_step, ops[ip], lt, env),
                                self.sv(),
                                Ok::<(), ScriptError>(()),
                            );
                        crate::semantics::lemma_reaches_snoc(
                            old(self).sv(),
                            ops,
                            i0,
                            pre_step,
                            ip,
                            lt,
                            env,
                            self.sv(),
                        );
                    }
                },
                Err(e) => {
                    proof {
                        let env = choose|env: crate::semantics::EnvV|
                            crate::semantics::matches_step(
                                #[trigger] crate::semantics::step(pre_step, ops[ip], lt, env),
                                self.sv(),
                                Err::<(), ScriptError>(e),
                            );
                        assert(crate::semantics::step(pre_step, ops[ip], lt, env)
                            == Err::<StateV, crate::error::ErrV>(e@));
                        assert(crate::semantics::reaches(
                            old(self).sv(),
                            ops,
                            i0,
                            pre_step,
                            ip,
                            lt,
                        ));
                        assert(fails_at_op(old(self).sv(), ops, i0, ip, lt, e@));
                    }
                    return Err(e);
                },
            }
        }
        if self.stack.len() == 0 {
            return Err(ScriptError::StackEmpty);
        }
        let b = self.stack[0].to_bool();
        proof {
            assert(self.sv().stack[0] == self.stack@[0]@);
        }
        Ok(b)
    }
}

/// Popping preserves the well-formedness of a stack.
pub proof fn lemma_pop_keeps_wf(s: Seq<crate::value::ItemV>)
    requires
        items_wf(s),
    ensures
        s.len() > 0 ==> items_wf(s.drop_last()),
{
    if s.len() > 0 {
        assert forall|i: int| 0 <= i < s.drop_last().len() implies value_wf(
            #[trigger] s.drop_last()[i].data,
        ) by {
            assert(value_wf(s[i].data));
        }
    }
}

/// Pushing a well-formed item preserves the well-formedness of a stack.
pub proof fn lemma_push_keeps_wf(s: Seq<crate::value::ItemV>, it: crate::value::ItemV)
    requires
        items_wf(s),
        value_wf(it.data),
    ensures
        items_wf(s.push(it)),
{
    assert forall|i: int| 0 <= i < s.push(it).len() implies value_wf(
        #[trigger] s.push(it)[i].data,
    ) by {
        if i < s.len() {
            assert(value_wf(s[i].data));
        }
    }
}

/// Whether two byte vectors hold the same bytes.
pub fn bytes_eq(a: &Vec<u8>, b: &Vec<u8>) -> (r: bool)
    ensures
        r == (a@ == b@),
{
    if a.len() != b.len() {
        proof {
            assert(a@.len() != b@.len());
        }
        return false;
    }
    let mut i: usize = 0;
    while i < a.len()
        invariant
            a@.len() == b@.len(),
            i <= a@.len(),
            forall|j: int| 0 <= j < i ==> a@[j] == b@[j],
        decreases a@.len() - i,
    {
        if a[i] != b[i] {
            return false;
        }
        i = i + 1;
    }
    proof {
        assert(a@ =~= b@);
    }
    true
}

} // verus!
