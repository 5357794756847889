//! The script model: opcodes, tagged ops with their debugger metadata,
//! scripts, and the static behavior table that drives the pure stack
//! permutation opcodes.

use vstd::prelude::*;
use crate::value::{ByteArray, ByteArrayV, Integer, StackItemDelta};

verus! {

/// The opcodes the dispatcher knows. Opcodes outside the catalogue the
/// dispatcher implements are rejected with a not-implemented error at
/// execution time.
#[allow(non_camel_case_types)]
#[derive(Clone, Copy, Debug, PartialEq, Eq, Structural)]
pub enum Opcode {
    OP_0,
    OP_PUSHDATA1,
    OP_PUSHDATA2,
    OP_PUSHDATA4,
    OP_1NEGATE,
    OP_RESERVED,
    OP_1,
    OP_2,
    OP_3,
    OP_4,
    OP_5,
    OP_6,
    OP_7,
    OP_8,
    OP_9,
    OP_10,
    OP_11,
    OP_12,
    OP_13,
    OP_14,
    OP_15,
    OP_16,
    OP_NOP,
    OP_IF,
    OP_NOTIF,
    OP_ELSE,
    OP_ENDIF,
    OP_VERIFY,
    OP_RETURN,
    OP_TOALTSTACK,
    OP_FROMALTSTACK,
    OP_2DROP,
    OP_2DUP,
    OP_3DUP,
    OP_2OVER,
    OP_2ROT,
    OP_2SWAP,
    OP_IFDUP,
    OP_DEPTH,
    OP_DROP,
    OP_DUP,
    OP_NIP,
    OP_OVER,
    OP_PICK,
    OP_ROLL,
    OP_ROT,
    OP_SWAP,
    OP_TUCK,
    OP_CAT,
    OP_SPLIT,
    OP_NUM2BIN,
    OP_BIN2NUM,
    OP_SIZE,
    OP_INVERT,
    OP_AND,
    OP_OR,
    OP_XOR,
    OP_EQUAL,
    OP_EQUALVERIFY,
    OP_1ADD,
    OP_1SUB,
    OP_2MUL,
    OP_2DIV,
    OP_NEGATE,
    OP_ABS,
    OP_NOT,
    OP_0NOTEQUAL,
    OP_ADD,
    OP_SUB,
    OP_MUL,
    OP_DIV,
    OP_MOD,
    OP_LSHIFT,
    OP_RSHIFT,
    OP_BOOLAND,
    OP_BOOLOR,
    OP_NUMEQUAL,
    OP_NUMEQUALVERIFY,
    OP_NUMNOTEQUAL,
    OP_LESSTHAN,
    OP_GREATERTHAN,
    OP_LESSTHANOREQUAL,
    OP_GREATERTHANOREQUAL,
    OP_MIN,
    OP_MAX,
    OP_WITHIN,
    OP_RIPEMD160,
    OP_SHA1,
    OP_SHA256,
    OP_HASH160,
    OP_HASH256,
    OP_CODESEPARATOR,
    OP_CHECKSIG,
    OP_CHECKSIGVERIFY,
    OP_CHECKMULTISIG,
    OP_CHECKMULTISIGVERIFY,
    OP_CHECKLOCKTIMEVERIFY,
    OP_CHECKSEQUENCEVERIFY,
    OP_CHECKDATASIG,
    OP_CHECKDATASIGVERIFY,
    OP_REVERSEBYTES,
}

/// A single script operation: an opcode, an invalid raw byte, or a data
/// push.
#[derive(Debug, PartialEq)]
pub enum Op {
    Code(Opcode),
    Invalid(u8),
    PushBoolean(bool),
    PushInteger(Integer),
    PushByteArray { array: ByteArray, is_minimal: bool },
}

/// The mathematical image of a script operation.
pub enum OpV {
    Code(Opcode),
    Invalid(u8),
    PushBoolean(bool),
    PushInteger(int),
    PushByteArray { array: ByteArrayV, is_minimal: bool },
}

impl View for Op {
    type V = OpV;

    open spec fn view(&self) -> OpV {
        match self {
            Op::Code(c) => OpV::Code(*c),
            Op::Invalid(b) => OpV::Invalid(*b),
            Op::PushBoolean(b) => OpV::PushBoolean(*b),
            Op::PushInteger(i) => OpV::PushInteger(i@),
            Op::PushByteArray { array, is_minimal } => OpV::PushByteArray {
                array: array@,
                is_minimal: *is_minimal,
            },
        }
    }
}

impl Clone for Op {
    fn clone(&self) -> (r: Self)
        ensures
            r@ == self@,
    {
        match self {
            Op::Code(c) => Op::Code(*c),
            Op::Invalid(b) => Op::Invalid(*b),
            Op::PushBoolean(b) => Op::PushBoolean(*b),
            Op::PushInteger(i) => Op::PushInteger(*i),
            Op::PushByteArray { array, is_minimal } => Op::PushByteArray {
                array: array.clone(),
                is_minimal: *is_minimal,
            },
        }
    }
}

/// An operation as it stands in a script: the op, the display names of
/// the values it pushes, and its source position (debugger metadata;
/// the source fields are carried but not modelled).
#[derive(Debug, PartialEq)]
pub struct TaggedOp {
    pub op: Op,
    pub pushed_names: Option<Vec<Option<String>>>,
    pub alt_pushed_names: Option<Vec<Option<String>>>,
    pub src_file: String,
    pub src_line: u32,
    pub src_column: u32,
}

/// The mathematical image of a tagged operation: the op itself and the
/// names its pushes carry.
pub struct TaggedOpV {
    pub op: OpV,
    pub pushed_names: Option<Seq<Option<Seq<char>>>>,
}

/// The view of an optional list of optional names.
pub open spec fn names_view(n: Option<Vec<Option<String>>>) -> Option<Seq<Option<Seq<char>>>> {
    match n {
        Some(v) => Some(v@.map_values(|o: Option<String>| crate::value::name_view(o))),
        None => None,
    }
}

impl View for TaggedOp {
    type V = TaggedOpV;

    open spec fn view(&self) -> TaggedOpV {
        TaggedOpV { op: self.op@, pushed_names: names_view(self.pushed_names) }
    }
}

/// Clones an optional list of optional names, preserving its view.
fn clone_names(n: &Option<Vec<Option<String>>>) -> (r: Option<Vec<Option<String>>>)
    ensures
        names_view(r) == names_view(*n),
{
    match n {
        Some(v) => {
            let mut out: Vec<Option<String>> = Vec::new();
            let mut i: usize = 0;
            while i < v.len()
                invariant
                    i <= v@.len(),
                    out@.len() == i,
                    forall|j: int| 0 <= j < i ==> crate::value::name_view(out@[j])
                        == crate::value::name_view(v@[j]),
                decreases v@.len() - i,
            {
                let entry: Option<String> = match &v[i] {
                    Some(s) => Some(s.clone()),
                    None => None,
                };
                out.push(entry);
                i = i + 1;
            }
            proof {
                assert(out@.map_values(|o: Option<String>| crate::value::name_view(o))
                    =~= v@.map_values(|o: Option<String>| crate::value::name_view(o)));
            }
            Some(out)
        },
        None => None,
    }
}

impl Clone for TaggedOp {
    fn clone(&self) -> (r: Self)
        ensures
            r@ == self@,
    {
        TaggedOp {
            op: self.op.clone(),
            pushed_names: clone_names(&self.pushed_names),
            alt_pushed_names: clone_names(&self.alt_pushed_names),
            src_file: self.src_file.clone(),
            src_line: self.src_line,
            src_column: self.src_column,
        }
    }
}

impl TaggedOp {
    /// A tagged op with no names and no source position.
    pub fn bare(op: Op) -> (r: TaggedOp)
        ensures
            r@.op == op@,
            r@.pushed_names is None,
    {
        TaggedOp {
            op,
            pushed_names: None,
            alt_pushed_names: None,
            src_file: String::new(),
            src_line: 0,
            src_column: 0,
        }
    }
}

/// An ordered sequence of tagged operations.
#[derive(Debug, PartialEq)]
pub struct Script {
    pub ops: Vec<TaggedOp>,
}

impl View for Script {
    type V = Seq<TaggedOpV>;

    open spec fn view(&self) -> Seq<TaggedOpV> {
        self.ops@.map_values(|o: TaggedOp| o@)
    }
}

impl Clone for Script {
    fn clone(&self) -> (r: Self)
        ensures
            r@ == self@,
    {
        let mut out: Vec<TaggedOp> = Vec::new();
        let mut i: usize = 0;
        while i < self.ops.len()
            invariant
                i <= self.ops@.len(),
                out@.len() == i,
                forall|j: int| 0 <= j < i ==> out@[j]@ == self.ops@[j]@,
            decreases self.ops@.len() - i,
        {
            out.push(self.ops[i].clone());
            i = i + 1;
        }
        proof {
            assert(out@.map_values(|o: TaggedOp| o@)
                =~= self.ops@.map_values(|o: TaggedOp| o@));
        }
        Script { ops: out }
    }
}

impl Script {
    /// A script from its operations.
    pub fn new(ops: Vec<TaggedOp>) -> (r: Script)
        ensures
            r@ == ops@.map_values(|o: TaggedOp| o@),
    {
        Script { ops }
    }
}

/// The output permutation of a table-driven stack opcode: indices into
/// the window of consumed items, in push order. Opcodes without an entry
/// are rejected as not implemented.
pub open spec fn table_order(op: Opcode) -> Option<Seq<int>> {
    match op {
        Opcode::OP_2DROP => Some(Seq::empty()),
        Opcode::OP_2DUP => Some(seq![0int, 1int, 0int, 1int]),
        Opcode::OP_3DUP => Some(seq![0int, 1int, 2int, 0int, 1int, 2int]),
        Opcode::OP_2OVER => Some(seq![0int, 1int, 2int, 3int, 0int, 1int]),
        Opcode::OP_2ROT => Some(seq![2int, 3int, 4int, 5int, 0int, 1int]),
        Opcode::OP_2SWAP => Some(seq![2int, 3int, 0int, 1int]),
        Opcode::OP_DROP => Some(Seq::empty()),
        Opcode::OP_DUP => Some(seq![0int, 0int]),
        Opcode::OP_NIP => Some(seq![1int]),
        Opcode::OP_OVER => Some(seq![0int, 1int, 0int]),
        Opcode::OP_ROT => Some(seq![1int, 2int, 0int]),
        Opcode::OP_SWAP => Some(seq![1int, 0int]),
        Opcode::OP_TUCK => Some(seq![1int, 0int, 1int]),
        _ => None,
    }
}

/// How many items a table-driven opcode consumes.
pub open spec fn table_arity(op: Opcode) -> int {
    match op {
        Opcode::OP_2DROP => 2,
        Opcode::OP_2DUP => 2,
        Opcode::OP_3DUP => 3,
        Opcode::OP_2OVER => 4,
        Opcode::OP_2ROT => 6,
        Opcode::OP_2SWAP => 4,
        Opcode::OP_DROP => 1,
        Opcode::OP_DUP => 1,
        Opcode::OP_NIP => 2,
        Opcode::OP_OVER => 2,
        Opcode::OP_ROT => 3,
        Opcode::OP_SWAP => 2,
        Opcode::OP_TUCK => 2,
        _ => 0,
    }
}

/// The delta annotation each produced slot of a table-driven opcode
/// carries; every produced slot is marked, so a debugger sees exactly
/// what the op touched.
pub open spec fn table_delta(op: Opcode) -> Seq<StackItemDelta> {
    let a = StackItemDelta::Added;
    let m = StackItemDelta::Moved;
    let mi = StackItemDelta::MovedIndirectly;
    match op {
        Opcode::OP_2DROP => Seq::empty(),
        Opcode::OP_2DUP => seq![mi, mi, a, a],
        Opcode::OP_3DUP => seq![mi, mi, mi, a, a, a],
        Opcode::OP_2OVER => seq![mi, mi, mi, mi, a, a],
        Opcode::OP_2ROT => seq![mi, mi, mi, mi, m, m],
        Opcode::OP_2SWAP => seq![mi, mi, m, m],
        Opcode::OP_DROP => Seq::empty(),
        Opcode::OP_DUP => seq![mi, a],
        Opcode::OP_NIP => seq![mi],
        Opcode::OP_OVER => seq![mi, mi, a],
        Opcode::OP_ROT => seq![mi, mi, m],
        Opcode::OP_SWAP => seq![mi, m],
        Opcode::OP_TUCK => seq![a, mi, mi],
    _ => Seq::empty(),
    }
}

/// The delta a value pushed by an opcode carries: everything pushes new
/// values, except the time-lock check, which puts the value it examined
/// back.
pub open spec fn push_delta(op: Opcode) -> StackItemDelta {
    if op == Opcode::OP_CHECKLOCKTIMEVERIFY {
        StackItemDelta::Moved
    } else {
        StackItemDelta::Added
    }
}

/// Each table entry permutes only within its window: every output index
/// addresses a consumed item, and each produced slot has a delta.
pub proof fn lemma_table_wf(c: Opcode)
    ensures
        table_order(c) matches Some(ord) ==> ord.len() == table_delta(c).len()
            && (forall|i: int| 0 <= i < ord.len() ==> 0 <= #[trigger] ord[i] < table_arity(c)),
{
    if table_order(c) is Some {
        let ord = table_order(c)->0;
        assert forall|i: int| 0 <= i < ord.len() implies 0 <= #[trigger] ord[i]
            < table_arity(c) by {
            match c {
                Opcode::OP_2DUP => {
                    assert(ord =~= seq![0int, 1int, 0int, 1int]);
                },
                Opcode::OP_3DUP => {
                    assert(ord =~= seq![0int, 1int, 2int, 0int, 1int, 2int]);
                },
                Opcode::OP_2OVER => {
                    assert(ord =~= seq![0int, 1int, 2int, 3int, 0int, 1int]);
                },
                Opcode::OP_2ROT => {
                    assert(ord =~= seq![2int, 3int, 4int, 5int, 0int, 1int]);
                },
                Opcode::OP_2SWAP => {
                    assert(ord =~= seq![2int, 3int, 0int, 1int]);
                },
                Opcode::OP_DUP => {
                    assert(ord =~= seq![0int, 0int]);
                },
                Opcode::OP_NIP => {
                    assert(ord =~= seq![1int]);
                },
                Opcode::OP_OVER => {
                    assert(ord =~= seq![0int, 1int, 0int]);
                },
                Opcode::OP_ROT => {
                    assert(ord =~= seq![1int, 2int, 0int]);
                },
                Opcode::OP_SWAP => {
                    assert(ord =~= seq![1int, 0int]);
                },
                Opcode::OP_TUCK => {
                    assert(ord =~= seq![1int, 0int, 1int]);
                },
                _ => {},
            }
        }
    }
}

/// Every produced slot of a table-driven opcode carries a visible
/// (non-Untouched) delta.
pub proof fn lemma_table_deltas_marked(c: Opcode)
    ensures
        forall|i: int| 0 <= i < table_delta(c).len() ==> #[trigger] table_delta(c)[i]
            != StackItemDelta::Untouched,
{
    let d = table_delta(c);
    assert forall|i: int| 0 <= i < d.len() implies #[trigger] d[i]
        != StackItemDelta::Untouched by {
        let a = StackItemDelta::Added;
        let m = StackItemDelta::Moved;
        let mi = StackItemDelta::MovedIndirectly;
        match c {
            Opcode::OP_2DUP => {
                assert(d =~= seq![mi, mi, a, a]);
            },
            Opcode::OP_3DUP => {
                assert(d =~= seq![mi, mi, mi, a, a, a]);
            },
            Opcode::OP_2OVER => {
                assert(d =~= seq![mi, mi, mi, mi, a, a]);
            },
            Opcode::OP_2ROT => {
                assert(d =~= seq![mi, mi, mi, mi, m, m]);
            },
            Opcode::OP_2SWAP => {
                assert(d =~= seq![mi, mi, m, m]);
            },
            Opcode::OP_DUP => {
                assert(d =~= seq![mi, a]);
            },
            Opcode::OP_NIP => {
                assert(d =~= seq![mi]);
            },
            Opcode::OP_OVER => {
                assert(d =~= seq![mi, mi, a]);
            },
            Opcode::OP_ROT => {
                assert(d =~= seq![mi, mi, m]);
            },
            Opcode::OP_SWAP => {
                assert(d =~= seq![mi, m]);
            },
            Opcode::OP_TUCK => {
                assert(d =~= seq![a, mi, mi]);
            },
            _ => {},
        }
    }
}

/// The executable behavior table for the pure stack permutations,
/// mirroring `table_order`, `table_arity` and `table_delta`.
pub fn behavior(op: Opcode) -> (r: (usize, Option<Vec<usize>>, Vec<StackItemDelta>))
    ensures
        r.0 == table_arity(op),
        r.1 matches Some(v) ==> table_order(op) matches Some(o)
            && v@.map_values(|x: usize| x as int) == o,
        r.1 is None ==> table_order(op) is None,
        r.2@ == table_delta(op),
{
    let a = StackItemDelta::Added;
    let m = StackItemDelta::Moved;
    let mi = StackItemDelta::MovedIndirectly;
    let r: (usize, Option<Vec<usize>>, Vec<StackItemDelta>) = match op {
        Opcode::OP_2DROP => (2, Some(Vec::new()), Vec::new()),
        Opcode::OP_2DUP => (2, Some(vec![0, 1, 0, 1]), vec![mi, mi, a, a]),
        Opcode::OP_3DUP => (3, Some(vec![0, 1, 2, 0, 1, 2]), vec![mi, mi, mi, a, a, a]),
        Opcode::OP_2OVER => (4, Some(vec![0, 1, 2, 3, 0, 1]), vec![mi, mi, mi, mi, a, a]),
        Opcode::OP_2ROT => (6, Some(vec![2, 3, 4, 5, 0, 1]), vec![mi, mi, mi, mi, m, m]),
        Opcode::OP_2SWAP => (4, Some(vec![2, 3, 0, 1]), vec![mi, mi, m, m]),
        Opcode::OP_DROP => (1, Some(Vec::new()), Vec::new()),
        Opcode::OP_DUP => (1, Some(vec![0, 0]), vec![mi, a]),
        Opcode::OP_NIP => (2, Some(vec![1]), vec![mi]),
        Opcode::OP_OVER => (2, Some(vec![0, 1, 0]), vec![mi, mi, a]),
        Opcode::OP_ROT => (3, Some(vec![1, 2, 0]), vec![mi, mi, m]),
        Opcode::OP_SWAP => (2, Some(vec![1, 0]), vec![mi, m]),
        Opcode::OP_TUCK => (2, Some(vec![1, 0, 1]), vec![a, mi, mi]),
        _ => (0, None, Vec::new()),
    };
    proof {
        if r.1 is Some {
            let v = r.1->0;
            assert(v@.map_values(|x: usize| x as int) =~= table_order(op)->0);
        }
        assert(r.2@ =~= table_delta(op));
    }
    r
}

} // verus!
