//! The polymorphic stack value domain: script integers, booleans, and
//! byte arrays with their provenance overlay, plus the per-slot delta
//! annotation that a step debugger reads between steps.

use vstd::prelude::*;
use crate::encoding::{
    bool_enc, in_range, int_mag, min_enc, INT_MAX,
};

verus! {

/// How a byte array came to be: the function tag of its provenance
/// record.
#[derive(Clone, Copy, Debug, PartialEq, Eq, Structural)]
pub enum Function {
    Plain,
    Sha1,
    Ripemd160,
    Sha256,
    Hash256,
    Hash160,
    Num2Bin,
    ToDataSig,
    Reverse,
}

/// How a stack slot changed during the most recent step; transient, reset
/// at the start of every step.
#[derive(Clone, Copy, Debug, PartialEq, Eq, Structural)]
pub enum StackItemDelta {
    Untouched,
    Added,
    Removed,
    Moved,
    MovedIndirectly,
}

/// Why an integer construction was rejected.
#[derive(Clone, Copy, Debug, PartialEq, Eq, Structural)]
pub enum IntegerError {
    OutOfRange,
}

/// A script-numeric value: a signed integer within the script numeric
/// range (`-INT_MAX ..= INT_MAX`).
#[derive(Clone, Copy, Debug, PartialEq, Eq, Structural)]
pub struct Integer {
    pub value: i64,
}

impl View for Integer {
    type V = int;

    open spec fn view(&self) -> int {
        self.value as int
    }
}

/// Truncating division, as the machine's division opcode computes it.
pub open spec fn tdiv(a: int, b: int) -> int {
    if (a < 0) != (b < 0) {
        -((int_mag(a) / int_mag(b)) as int)
    } else {
        (int_mag(a) / int_mag(b)) as int
    }
}

/// Truncating remainder: the value left over by `tdiv`.
pub open spec fn tmod(a: int, b: int) -> int {
    a - b * tdiv(a, b)
}

impl Integer {
    /// The well-formedness of a script integer: its value lies in the
    /// numeric range.
    pub open spec fn wf(&self) -> bool {
        in_range(self@)
    }

    /// Builds a script integer, rejecting values outside the numeric
    /// range.
    pub fn new(value: i64) -> (r: Result<Integer, IntegerError>)
        ensures
            in_range(value as int) <==> r is Ok,
            r matches Ok(i) ==> i@ == value as int && i.wf(),
    {
        if value == i64::MIN {
            Err(IntegerError::OutOfRange)
        } else {
            Ok(Integer { value })
        }
    }

    /// Checked addition within the numeric range.
    pub fn checked_add(self, o: Integer) -> (r: Result<Integer, IntegerError>)
        requires
            self.wf(),
            o.wf(),
        ensures
            in_range(self@ + o@) <==> r is Ok,
            r matches Ok(i) ==> i@ == self@ + o@ && i.wf(),
    {
        let a = self.value;
        let b = o.value;
        if b > 0 && a > INT_MAX - b {
            Err(IntegerError::OutOfRange)
        } else if b < 0 && a < -INT_MAX - b {
            Err(IntegerError::OutOfRange)
        } else {
            Ok(Integer { value: a + b })
        }
    }

    /// Checked subtraction within the numeric range.
    pub fn checked_sub(self, o: Integer) -> (r: Result<Integer, IntegerError>)
        requires
            self.wf(),
            o.wf(),
        ensures
            in_range(self@ - o@) <==> r is Ok,
            r matches Ok(i) ==> i@ == self@ - o@ && i.wf(),
    {
        self.checked_add(Integer { value: -o.value })
    }

    /// Negation; total, since the numeric range is symmetric.
    pub fn negated(self) -> (r: Integer)
        requires
            self.wf(),
        ensures
            r@ == -self@,
            r.wf(),
    {
        Integer { value: -self.value }
    }

    /// Absolute value; total, since the numeric range is symmetric.
    pub fn absolute(self) -> (r: Integer)
        requires
            self.wf(),
        ensures
            r@ == int_mag(self@),
            r.wf(),
    {
        if self.value < 0 {
            Integer { value: -self.value }
        } else {
            self
        }
    }

    /// Truncating division by a non-zero divisor; the quotient always
    /// stays in the numeric range.
    pub fn div_trunc(self, o: Integer) -> (r: Integer)
        requires
            self.wf(),
            o.wf(),
            o@ != 0,
        ensures
            r@ == tdiv(self@, o@),
            r.wf(),
    {
        let a = self.value;
        let b = o.value;
        let ma: u64 = if a < 0 {
            (-a) as u64
        } else {
            a as u64
        };
        let mb: u64 = if b < 0 {
            (-b) as u64
        } else {
            b as u64
        };
        let mq: u64 = ma / mb;
        proof {
            assert(ma / mb <= ma) by (nonlinear_arith)
                requires mb >= 1,
            ;
        }
        if (a < 0) != (b < 0) {
            Integer { value: -(mq as i64) }
        } else {
            Integer { value: mq as i64 }
        }
    }

    /// Truncating remainder by a non-zero divisor; carries the sign of
    /// the dividend and always stays in the numeric range.
    pub fn mod_trunc(self, o: Integer) -> (r: Integer)
        requires
            self.wf(),
            o.wf(),
            o@ != 0,
        ensures
            r@ == tmod(self@, o@),
            r.wf(),
    {
        let a = self.value;
        let b = o.value;
        let ma: u64 = if a < 0 {
            (-a) as u64
        } else {
            a as u64
        };
        let mb: u64 = if b < 0 {
            (-b) as u64
        } else {
            b as u64
        };
        let mq: u64 = ma / mb;
        let mr: u64 = ma % mb;
        proof {
            assert(ma == mb * (ma / mb) + ma % mb && ma % mb < mb && ma / mb <= ma)
                by (nonlinear_arith)
            requires
                mb >= 1,
            ;
            let ai = a as int;
            let bi = b as int;
            let q = tdiv(ai, bi);
            assert(int_mag(ai) == ma && int_mag(bi) == mb);
            if ai < 0 {
                if bi < 0 {
                    assert(q == mq as int);
                    assert(ai - bi * q == -(mr as int)) by (nonlinear_arith)
                    requires
                        ai == -(ma as int),
                        bi == -(mb as int),
                        q == mq as int,
                        ma == mb * mq + mr,
                    ;
                } else {
                    assert(q == -(mq as int));
                    assert(ai - bi * q == -(mr as int)) by (nonlinear_arith)
                    requires
                        ai == -(ma as int),
                        bi == mb as int,
                        q == -(mq as int),
                        ma == mb * mq + mr,
                    ;
                }
            } else {
                if bi < 0 {
                    assert(q == -(mq as int));
                    assert(ai - bi * q == mr as int) by (nonlinear_arith)
                    requires
                        ai == ma as int,
                        bi == -(mb as int),
                        q == -(mq as int),
                        ma == mb * mq + mr,
                    ;
                } else {
                    assert(q == mq as int);
                    assert(ai - bi * q == mr as int) by (nonlinear_arith)
                    requires
                        ai == ma as int,
                        bi == mb as int,
                        q == mq as int,
                        ma == mb * mq + mr,
                    ;
                }
            }
        }
        if a < 0 {
            Integer { value: -(mr as i64) }
        } else {
            Integer { value: mr as i64 }
        }
    }
}

/// An immutable byte sequence with its provenance: an optional symbolic
/// name, the function that produced it, and the arrays it was derived
/// from (shared, since derivation chains form a DAG). Provenance never
/// influences execution results.
#[derive(Debug, PartialEq)]
pub struct ByteArray {
    pub data: Vec<u8>,
    pub name: Option<String>,
    pub function: Function,
    pub preimage: Option<std::rc::Rc<Vec<ByteArray>>>,
}

/// The mathematical image of a byte array: its bytes, its display name,
/// and its function tag. The derivation chain is carried by the
/// executable type but not modelled.
pub struct ByteArrayV {
    pub data: Seq<u8>,
    pub name: Option<Seq<char>>,
    pub function: Function,
}

/// The view of an optional symbolic name.
pub open spec fn name_view(n: Option<String>) -> Option<Seq<char>> {
    match n {
        Some(s) => Some(s@),
        None => None,
    }
}

impl View for ByteArray {
    type V = ByteArrayV;

    open spec fn view(&self) -> ByteArrayV {
        ByteArrayV {
            data: self.data@,
            name: name_view(self.name),
            function: self.function,
        }
    }
}

impl Clone for ByteArray {
    fn clone(&self) -> (r: Self)
        ensures
            r@ == self@,
    {
        ByteArray {
            data: self.data.clone(),
            name: match &self.name {
                Some(s) => Some(s.clone()),
                None => None,
            },
            function: self.function,
            preimage: match &self.preimage {
                Some(p) => Some(p.clone()),
                None => None,
            },
        }
    }
}

impl ByteArray {
    /// A plain, unnamed byte array with no derivation.
    pub fn from_data(data: Vec<u8>) -> (r: ByteArray)
        ensures
            r@.data == data@,
            r@.name is None,
            r@.function == Function::Plain,
    {
        ByteArray { data, name: None, function: Function::Plain, preimage: None }
    }

    /// The concatenation `self ++ other`; the result is plain and keeps
    /// both operands as its derivation.
    pub fn concat(self, other: ByteArray) -> (r: ByteArray)
        ensures
            r@.data == self@.data + other@.data,
            r@.name is None,
            r@.function == Function::Plain,
    {
        let mut data: Vec<u8> = self.data.clone();
        let mut tail: Vec<u8> = other.data.clone();
        data.append(&mut tail);
        let pre = std::rc::Rc::new(vec![self, other]);
        ByteArray { data, name: None, function: Function::Plain, preimage: Some(pre) }
    }

    /// Cuts the array at `at`: the first `at` bytes and the rest, both
    /// plain, both recording this array as their derivation.
    pub fn split_at_index(self, at: usize) -> (r: (ByteArray, ByteArray))
        requires
            at <= self@.data.len(),
        ensures
            r.0@.data == self@.data.take(at as int),
            r.1@.data == self@.data.skip(at as int),
            r.0@.name is None && r.1@.name is None,
            r.0@.function == Function::Plain && r.1@.function == Function::Plain,
    {
        let mut left: Vec<u8> = Vec::new();
        let mut i: usize = 0;
        while i < at
            invariant
                at <= self@.data.len(),
                i <= at,
                left@ =~= self@.data.take(i as int),
            decreases at - i,
        {
            left.push(self.data[i]);
            i = i + 1;
        }
        let mut right: Vec<u8> = Vec::new();
        let mut j: usize = at;
        while j < self.data.len()
            invariant
                at <= self@.data.len(),
                at <= j <= self@.data.len(),
                right@ =~= self@.data.subrange(at as int, j as int),
            decreases self@.data.len() - j,
        {
            right.push(self.data[j]);
            j = j + 1;
        }
        proof {
            assert(left@ =~= self@.data.take(at as int));
            assert(right@ =~= self@.data.skip(at as int));
        }
        let pre_l = std::rc::Rc::new(vec![self.clone()]);
        let pre_r = std::rc::Rc::new(vec![self]);
        (
            ByteArray { data: left, name: None, function: Function::Plain, preimage: Some(pre_l) },
            ByteArray { data: right, name: None, function: Function::Plain, preimage: Some(pre_r) },
        )
    }

    /// A new array produced by applying `function` to this one; this
    /// array becomes the derivation of the result.
    pub fn apply_function(self, data: Vec<u8>, function: Function) -> (r: ByteArray)
        ensures
            r@.data == data@,
            r@.name is None,
            r@.function == function,
    {
        let pre = std::rc::Rc::new(vec![self]);
        ByteArray { data, name: None, function, preimage: Some(pre) }
    }

    /// The same array under a (possibly absent) symbolic name.
    pub fn named_option(self, name: Option<String>) -> (r: ByteArray)
        ensures
            r@.data == self@.data,
            r@.function == self@.function,
            r@.name == name_view(name),
    {
        ByteArray { name, ..self }
    }

    /// The number of bytes held.
    pub fn len(&self) -> (r: usize)
        ensures
            r == self@.data.len(),
    {
        self.data.len()
    }
}

/// The tagged union pushed onto and popped from the stacks.
#[derive(Debug, PartialEq)]
pub enum StackValue {
    Integer(Integer),
    Boolean(bool),
    ByteArray(ByteArray),
}

/// The mathematical image of a stack value.
pub enum ValueV {
    Integer(int),
    Boolean(bool),
    ByteArray(ByteArrayV),
}

impl View for StackValue {
    type V = ValueV;

    open spec fn view(&self) -> ValueV {
        match self {
            StackValue::Integer(i) => ValueV::Integer(i@),
            StackValue::Boolean(b) => ValueV::Boolean(*b),
            StackValue::ByteArray(a) => ValueV::ByteArray(a@),
        }
    }
}

impl Clone for StackValue {
    fn clone(&self) -> (r: Self)
        ensures
            r@ == self@,
    {
        match self {
            StackValue::Integer(i) => StackValue::Integer(*i),
            StackValue::Boolean(b) => StackValue::Boolean(*b),
            StackValue::ByteArray(a) => StackValue::ByteArray(a.clone()),
        }
    }
}

/// A stack value is well formed when any integer it holds lies in the
/// numeric range.
pub open spec fn value_wf(v: ValueV) -> bool {
    match v {
        ValueV::Integer(i) => in_range(i),
        _ => true,
    }
}

/// The final-verdict projection: nonzero integers, true booleans, and
/// non-empty byte arrays are truthy. Looser than the integer coercion:
/// no minimality is demanded.
pub open spec fn truthy(v: ValueV) -> bool {
    match v {
        ValueV::Integer(i) => i != 0,
        ValueV::Boolean(b) => b,
        ValueV::ByteArray(a) => a.data.len() > 0,
    }
}

/// What the stacks actually hold: a value, an optional display name, and
/// the per-step delta annotation.
#[derive(Debug, PartialEq)]
pub struct StackItem {
    pub data: StackValue,
    pub name: Option<String>,
    pub delta: StackItemDelta,
}

/// The mathematical image of a stack slot.
pub struct ItemV {
    pub data: ValueV,
    pub name: Option<Seq<char>>,
    pub delta: StackItemDelta,
}

impl View for StackItem {
    type V = ItemV;

    open spec fn view(&self) -> ItemV {
        ItemV { data: self.data@, name: name_view(self.name), delta: self.delta }
    }
}

impl Clone for StackItem {
    fn clone(&self) -> (r: Self)
        ensures
            r@ == self@,
    {
        StackItem {
            data: self.data.clone(),
            name: match &self.name {
                Some(s) => Some(s.clone()),
                None => None,
            },
            delta: self.delta,
        }
    }
}

impl StackItem {
    /// The truth value this slot contributes to a final verdict.
    pub fn to_bool(&self) -> (r: bool)
        ensures
            r == truthy(self@.data),
    {
        match &self.data {
            StackValue::Integer(i) => i.value != 0,
            StackValue::Boolean(b) => *b,
            StackValue::ByteArray(a) => a.data.len() > 0,
        }
    }
}

/// The canonical byte encoding of a stack value: byte arrays stand as
/// they are, integers take their minimal encoding, booleans their
/// canonical encoding.
pub open spec fn canonical_bytes(v: ValueV) -> ByteArrayV {
    match v {
        ValueV::ByteArray(a) => a,
        ValueV::Integer(i) => ByteArrayV {
            data: min_enc(i),
            name: None,
            function: Function::Plain,
        },
        ValueV::Boolean(b) => ByteArrayV {
            data: bool_enc(b),
            name: None,
            function: Function::Plain,
        },
    }
}

} // verus!
