//! The machine's laws: properties that hold of every input, proved once
//! and for all against the step semantics and the codec.

use vstd::prelude::*;
use crate::encoding::{
    bool_enc, fits_in, fixed_enc, in_range, int_mag, is_minimal, le_val,
    lemma_le_val_bound, lemma_le_val_split_last, lemma_mag_bytes_last, lemma_mag_bytes_len,
    lemma_mag_bytes_len_lower, lemma_mag_bytes_val, lemma_mag_fixed_last, lemma_mag_fixed_val,
    lemma_min_enc_ok, lemma_pow256_le, lemma_pow256_pos, mag_bytes, min_enc, pow256, sm_val,
};
use crate::error::ErrV;
use crate::semantics::{pop_bytes_v, pop1, to_int_v, seq_reverse};
use crate::value::{canonical_bytes, value_wf, ItemV, ValueV};

verus! {

/// Popping any value as bytes yields exactly its canonical encoding:
/// the byte array itself, the minimal encoding of an integer, or the
/// canonical encoding of a boolean.
pub proof fn lemma_pop_canonical(s: Seq<ItemV>, it: ItemV)
    ensures
        pop_bytes_v(s.push(it)) == Ok::<(crate::value::ByteArrayV, Seq<ItemV>), ErrV>((
            canonical_bytes(it.data),
            s,
        )),
{
    assert(s.push(it).last() == it);
    assert(s.push(it).drop_last() =~= s);
}

/// Reading the canonical encoding back as an integer recovers the value
/// exactly when the encoding is minimal: an integer's or a boolean's
/// canonical encoding always is; a byte array must already be minimal
/// and in range.
pub proof fn lemma_canonical_roundtrip(v: ValueV)
    requires
        value_wf(v),
    ensures
        v matches ValueV::Integer(i) ==> canonical_bytes(v).data == min_enc(i) && to_int_v(
            ValueV::ByteArray(canonical_bytes(v)),
        ) == Ok::<int, ErrV>(i),
        v matches ValueV::Boolean(b) ==> to_int_v(ValueV::ByteArray(canonical_bytes(v)))
            == Ok::<int, ErrV>(if b { 1int } else { 0int }),
        v matches ValueV::ByteArray(a) ==> (to_int_v(v) is Ok <==> is_minimal(a.data)
            && in_range(sm_val(a.data))) && (to_int_v(v) is Ok ==> to_int_v(v)
            == Ok::<int, ErrV>(sm_val(a.data))),
{
    match v {
        ValueV::Integer(i) => {
            lemma_min_enc_ok(i);
        },
        ValueV::Boolean(b) => {
            if b {
                let e = bool_enc(true);
                assert(e.last() == 1);
                assert(e[0] == 1);
                assert(e.drop_first().len() == 0);
                assert(le_val(e.drop_first()) == 0);
                assert(le_val(e) == 1);
                assert(sm_val(e) == 1);
            }
        },
        ValueV::ByteArray(_) => {},
    }
}

/// The number of bytes in which an integer fits is exactly any width no
/// shorter than its minimal encoding.
pub proof fn lemma_fits_iff_min_len(x: int, n: nat)
    requires
        in_range(x),
    ensures
        fits_in(x, n) <==> n >= min_enc(x).len(),
{
    if x == 0 {
        if n > 0 {
            lemma_pow256_pos((n - 1) as nat);
        }
    } else {
        let m = int_mag(x);
        let mb = mag_bytes(m);
        let k = mb.len();
        lemma_mag_bytes_val(m);
        lemma_mag_bytes_last(m);
        // pow256(k - 1) <= m < pow256(k)
        assert(m < pow256(k)) by {
            if m >= pow256(k) {
                lemma_mag_bytes_len_lower(m, k);
            }
        }
        assert(m >= pow256((k - 1) as nat)) by {
            if m < pow256((k - 1) as nat) {
                lemma_mag_bytes_len(m, (k - 1) as nat);
            }
        }
        lemma_le_val_split_last(mb);
        lemma_le_val_bound(mb.drop_last());
        let p = pow256((k - 1) as nat);
        lemma_pow256_pos((k - 1) as nat);
        if mb.last() >= 128 {
            // the sign needs a byte of its own: minimal length is k + 1
            assert(m >= 128 * p) by (nonlinear_arith)
            requires
                m == le_val(mb.drop_last()) + mb.last() * p,
                mb.last() >= 128,
                p >= 0,
                le_val(mb.drop_last()) >= 0,
            ;
            assert(min_enc(x).len() == k + 1);
            if n >= k + 1 {
                lemma_pow256_le(k, (n - 1) as nat);
                assert(m < 128 * pow256((n - 1) as nat)) by (nonlinear_arith)
                requires
                    m < pow256(k),
                    pow256(k) <= pow256((n - 1) as nat),
                ;
            }
            if n <= k && n >= 1 {
                lemma_pow256_le((n - 1) as nat, (k - 1) as nat);
                assert(128 * pow256((n - 1) as nat) <= 128 * p) by (nonlinear_arith)
                    requires pow256((n - 1) as nat) <= p,
                ;
            }
        } else {
            assert(m < 128 * p) by (nonlinear_arith)
            requires
                m == le_val(mb.drop_last()) + mb.last() * p,
                mb.last() < 128,
                le_val(mb.drop_last()) < p,
                p >= 0,
            ;
            assert(min_enc(x).len() == k);
            if n >= k && n >= 1 {
                lemma_pow256_le((k - 1) as nat, (n - 1) as nat);
                assert(128 * p <= 128 * pow256((n - 1) as nat)) by (nonlinear_arith)
                    requires p <= pow256((n - 1) as nat),
                ;
            }
            if n < k {
                // too narrow: the magnitude spills past the sign bit
                lemma_pow256_le(n, (k - 1) as nat);
                if n >= 1 {
                    lemma_pow256_pos((n - 1) as nat);
                    assert(pow256(n) == 256 * pow256((n - 1) as nat));
                    assert(m >= 128 * pow256((n - 1) as nat)) by (nonlinear_arith)
                    requires
                        m >= pow256((k - 1) as nat),
                        pow256((k - 1) as nat) >= pow256(n),
                        pow256(n) == 256 * pow256((n - 1) as nat),
                        pow256((n - 1) as nat) >= 1,
                    ;
                }
            }
        }
    }
}

/// Re-encoding an integer in any width it fits, then reading the bytes
/// back, recovers the integer: the padded encoding carries the same
/// value.
pub proof fn lemma_fixed_enc_value(x: int, n: nat)
    requires
        in_range(x),
        fits_in(x, n),
    ensures
        sm_val(fixed_enc(x, n)) == x,
{
    if n == 0 {
        assert(fixed_enc(0int, 0nat).len() == 0);
    } else {
        let m = int_mag(x);
        let p = pow256((n - 1) as nat);
        lemma_pow256_pos((n - 1) as nat);
        assert(m < 256 * p) by (nonlinear_arith)
        requires
            m < 128 * p,
            p >= 1,
        ;
        lemma_mag_fixed_val(m, n);
        let mb = crate::encoding::mag_bytes_fixed(m, n);
        lemma_mag_fixed_last(m, n);
        lemma_le_val_split_last(mb);
        if x < 0 {
            let e = mb.update(mb.len() - 1, (mb.last() + 128) as u8);
            assert(e.drop_last() =~= mb.drop_last());
            assert(e.last() == mb.last() + 128);
            lemma_le_val_split_last(e);
            assert((mb.last() + 128) * p == mb.last() * p + 128 * p) by (nonlinear_arith);
            assert(le_val(e) == m + 128 * p);
            assert(sm_val(e) == 128 * p - le_val(e));
            assert(fixed_enc(x, n) == e);
        } else {
            if m > 0 {
                assert(sm_val(mb) == m);
            } else {
                assert(x == 0);
                lemma_le_val_bound(mb.drop_last());
                assert(mb.last() == 0) by (nonlinear_arith)
                requires
                    0 == le_val(mb.drop_last()) + mb.last() * p,
                    p >= 1,
                    le_val(mb.drop_last()) >= 0,
                    mb.last() >= 0,
                ;
                assert(sm_val(mb) == le_val(mb));
            }
        }
    }
}

/// Whether an op is a plain data push.
pub open spec fn is_push(op: crate::script::OpV) -> bool {
    match op {
        crate::script::OpV::PushBoolean(_) => true,
        crate::script::OpV::PushInteger(_) => true,
        crate::script::OpV::PushByteArray { .. } => true,
        _ => false,
    }
}

/// Whether a script consists of pushes alone.
pub open spec fn push_only(ops: Seq<crate::script::TaggedOpV>) -> bool {
    forall|i: int| 0 <= i < ops.len() ==> is_push(#[trigger] ops[i].op)
}

/// The value a push op pushes.
pub open spec fn push_value_of(op: crate::script::OpV) -> ValueV {
    match op {
        crate::script::OpV::PushBoolean(b) => ValueV::Boolean(b),
        crate::script::OpV::PushInteger(i) => ValueV::Integer(i),
        crate::script::OpV::PushByteArray { array, .. } => ValueV::ByteArray(array),
        _ => ValueV::Boolean(false),
    }
}

/// A push op, while executing, always succeeds: it resets the deltas
/// and appends exactly one slot.
pub proof fn lemma_push_step(
    st: crate::semantics::StateV,
    op: crate::script::TaggedOpV,
    lt: u32,
    env: crate::semantics::EnvV,
)
    requires
        is_push(op.op),
        crate::semantics::all_exec(st.cond),
    ensures
        crate::semantics::step(st, op, lt, env) == Ok::<crate::semantics::StateV, ErrV>(
            crate::semantics::StateV {
                stack: crate::semantics::reset_deltas(st.stack).push(
                    crate::semantics::pushed_item(op, 0, push_value_of(op.op)),
                ),
                alt: st.alt,
                cond: st.cond,
            },
        ),
{
}

/// Along a run of pushes alone, the conditional stack and the alt stack
/// stay put, each step appends one slot, and the data below survives.
pub proof fn lemma_push_only_segment(
    st: crate::semantics::StateV,
    ops: Seq<crate::script::TaggedOpV>,
    i: int,
    st2: crate::semantics::StateV,
    j: int,
    lt: u32,
)
    requires
        push_only(ops),
        crate::semantics::all_exec(st.cond),
        0 <= i <= j <= ops.len(),
        crate::semantics::reaches(st, ops, i, st2, j, lt),
    ensures
        st2.cond == st.cond,
        st2.alt == st.alt,
        st2.stack.len() == st.stack.len() + (j - i),
        forall|k: int| 0 <= k < st.stack.len() ==> #[trigger] st2.stack[k].data
            == st.stack[k].data,
        forall|k: int| i <= k < j ==> #[trigger] st2.stack[st.stack.len() + (k - i)].data
            == crate::semantics::pushed_item(ops[k], 0, push_value_of(ops[k].op)).data,
    decreases j - i,
{
    if i == j {
    } else {
        let env = choose|env: crate::semantics::EnvV|
            #[trigger] crate::semantics::step(st, ops[i], lt, env) matches Ok(mid)
                && crate::semantics::reaches(mid, ops, i + 1, st2, j, lt);
        lemma_push_step(st, ops[i], lt, env);
        let mid = crate::semantics::StateV {
            stack: crate::semantics::reset_deltas(st.stack).push(
                crate::semantics::pushed_item(ops[i], 0, push_value_of(ops[i].op)),
            ),
            alt: st.alt,
            cond: st.cond,
        };
        assert(crate::semantics::step(st, ops[i], lt, env)
            == Ok::<crate::semantics::StateV, ErrV>(mid));
        lemma_push_only_segment(mid, ops, i + 1, st2, j, lt);
        assert forall|k: int| 0 <= k < st.stack.len() implies #[trigger] st2.stack[k].data
            == st.stack[k].data by {
            assert(mid.stack[k].data == crate::semantics::reset_deltas(st.stack)[k].data);
            assert(crate::semantics::reset_deltas(st.stack)[k].data == st.stack[k].data);
        }
        assert forall|k: int| i <= k < j implies #[trigger] st2.stack[st.stack.len() + (k
            - i)].data == crate::semantics::pushed_item(
            ops[k],
            0,
            push_value_of(ops[k].op),
        ).data by {
            if k == i {
                assert(mid.stack[st.stack.len() as int].data
                    == crate::semantics::pushed_item(ops[i], 0, push_value_of(ops[i].op)).data);
                assert(st2.stack[st.stack.len() as int].data
                    == mid.stack[st.stack.len() as int].data);
            } else {
                assert(st2.stack[mid.stack.len() + (k - (i + 1))].data
                    == crate::semantics::pushed_item(ops[k], 0, push_value_of(ops[k].op)).data);
            }
        }
    }
}

/// A run of pushes alone never fails.
pub proof fn lemma_push_only_no_failure(
    st: crate::semantics::StateV,
    ops: Seq<crate::script::TaggedOpV>,
    i: int,
    lt: u32,
    e: ErrV,
)
    requires
        push_only(ops),
        crate::semantics::all_exec(st.cond),
        0 <= i,
    ensures
        !crate::interpreter::run_fails_at(st, ops, i, lt, e),
{
    if crate::interpreter::run_fails_at(st, ops, i, lt, e) {
        let im = choose|im: int| i <= im < ops.len() && #[trigger] crate::interpreter::fails_at_op(
            st,
            ops,
            i,
            im,
            lt,
            e,
        );
        let (stm, env) = choose|stm: crate::semantics::StateV, env: crate::semantics::EnvV|
            #![trigger crate::semantics::reaches(st, ops, i, stm, im, lt),
                crate::semantics::step(stm, ops[im], lt, env)]
            crate::semantics::reaches(st, ops, i, stm, im, lt)
                && crate::semantics::step(stm, ops[im], lt, env)
                == Err::<crate::semantics::StateV, ErrV>(e);
        lemma_push_only_segment(st, ops, i, stm, im, lt);
        lemma_push_step(stm, ops[im], lt, env);
        assert(false);
    }
}

/// Law: a script composed only of pushes always runs to completion; the
/// final stack depth equals the starting depth plus the number of
/// pushes, the slot each push produced holds the pushed value, and the
/// conditional and alt stacks are untouched. From an empty start, the
/// bottom slot is the first push, so a full evaluation succeeds and
/// answers exactly the truth of the bottom push.
pub proof fn lemma_push_only_run(
    st0: crate::semantics::StateV,
    ops: Seq<crate::script::TaggedOpV>,
    lt: u32,
)
    requires
        push_only(ops),
        crate::semantics::all_exec(st0.cond),
    ensures
        forall|st2: crate::semantics::StateV| #[trigger] crate::semantics::reaches(
            st0,
            ops,
            0,
            st2,
            ops.len() as int,
            lt,
        ) ==> st2.cond == st0.cond && st2.alt == st0.alt && st2.stack.len() == st0.stack.len()
            + ops.len() && (forall|k: int| 0 <= k < ops.len()
            ==> #[trigger] st2.stack[st0.stack.len() + k].data
            == crate::semantics::pushed_item(ops[k], 0, push_value_of(ops[k].op)).data),
        forall|e: ErrV| !crate::interpreter::run_fails_at(st0, ops, 0, lt, e),
{
    assert forall|st2: crate::semantics::StateV| #[trigger] crate::semantics::reaches(
        st0,
        ops,
        0,
        st2,
        ops.len() as int,
        lt,
    ) implies st2.cond == st0.cond && st2.alt == st0.alt && st2.stack.len() == st0.stack.len()
        + ops.len() && (forall|k: int| 0 <= k < ops.len()
        ==> #[trigger] st2.stack[st0.stack.len() + k].data
        == crate::semantics::pushed_item(ops[k], 0, push_value_of(ops[k].op)).data) by {
        lemma_push_only_segment(st0, ops, 0, st2, ops.len() as int, lt);
        assert forall|k: int| 0 <= k < ops.len() implies #[trigger] st2.stack[st0.stack.len()
            + k].data == crate::semantics::pushed_item(
            ops[k],
            0,
            push_value_of(ops[k].op),
        ).data by {
            assert(st2.stack[st0.stack.len() + (k - 0)].data
                == crate::semantics::pushed_item(ops[k], 0, push_value_of(ops[k].op)).data);
        }
    }
    assert forall|e: ErrV| !crate::interpreter::run_fails_at(st0, ops, 0, lt, e) by {
        lemma_push_only_no_failure(st0, ops, 0, lt, e);
    }
}

/// How an op changes the depth of the conditional stack: an IF opens a
/// level, an ENDIF closes one, everything else leaves it.
pub open spec fn cond_weight(op: crate::script::OpV) -> int {
    match op {
        crate::script::OpV::Code(c) => {
            if c == crate::script::Opcode::OP_IF {
                1int
            } else if c == crate::script::Opcode::OP_ENDIF {
                -1int
            } else {
                0int
            }
        },
        _ => 0int,
    }
}

/// The net conditional-depth change over the ops in `[i, j)`.
pub open spec fn depth_delta(ops: Seq<crate::script::TaggedOpV>, i: int, j: int) -> int
    decreases j - i,
{
    if i >= j {
        0
    } else {
        cond_weight(ops[i].op) + depth_delta(ops, i + 1, j)
    }
}

/// How many ops in `[i, len)` carry the given opcode.
pub open spec fn count_code(
    ops: Seq<crate::script::TaggedOpV>,
    i: int,
    c: crate::script::Opcode,
) -> int
    decreases ops.len() - i,
{
    if i < 0 || i >= ops.len() {
        0
    } else {
        (if ops[i].op == crate::script::OpV::Code(c) {
            1int
        } else {
            0int
        }) + count_code(ops, i + 1, c)
    }
}

/// A script is well nested when no prefix closes more conditionals than
/// it opened and the whole script closes every one.
pub open spec fn well_nested(ops: Seq<crate::script::TaggedOpV>) -> bool {
    &&& forall|j: int| 0 <= j <= ops.len() ==> #[trigger] depth_delta(ops, 0, j) >= 0
    &&& depth_delta(ops, 0, ops.len() as int) == 0
}

/// Every successful step moves the conditional depth by exactly the
/// op's weight.
pub proof fn lemma_step_cond_len(
    st: crate::semantics::StateV,
    op: crate::script::TaggedOpV,
    lt: u32,
    env: crate::semantics::EnvV,
    st2: crate::semantics::StateV,
)
    requires
        crate::semantics::step(st, op, lt, env) == Ok::<crate::semantics::StateV, ErrV>(st2),
    ensures
        st2.cond.len() == st.cond.len() + cond_weight(op.op),
{
}

/// The depth deltas of a split range add up.
pub proof fn lemma_depth_delta_split(ops: Seq<crate::script::TaggedOpV>, i: int, j: int, k: int)
    requires
        i <= j <= k,
    ensures
        depth_delta(ops, i, k) == depth_delta(ops, i, j) + depth_delta(ops, j, k),
    decreases j - i,
{
    if i < j {
        lemma_depth_delta_split(ops, i + 1, j, k);
    }
}

/// Along any successful run, the conditional depth moves by exactly the
/// net weight of the executed range.
pub proof fn lemma_cond_delta_segment(
    st: crate::semantics::StateV,
    ops: Seq<crate::script::TaggedOpV>,
    i: int,
    st2: crate::semantics::StateV,
    j: int,
    lt: u32,
)
    requires
        0 <= i <= j <= ops.len(),
        crate::semantics::reaches(st, ops, i, st2, j, lt),
    ensures
        st2.cond.len() == st.cond.len() + depth_delta(ops, i, j),
    decreases j - i,
{
    if i == j {
    } else {
        let env = choose|env: crate::semantics::EnvV|
            #[trigger] crate::semantics::step(st, ops[i], lt, env) matches Ok(mid)
                && crate::semantics::reaches(mid, ops, i + 1, st2, j, lt);
        let mid = crate::semantics::step(st, ops[i], lt, env)->Ok_0;
        lemma_step_cond_len(st, ops[i], lt, env, mid);
        lemma_cond_delta_segment(mid, ops, i + 1, st2, j, lt);
    }
}

/// The net depth change of a range is its IF count minus its ENDIF
/// count.
pub proof fn lemma_depth_delta_counts(ops: Seq<crate::script::TaggedOpV>, i: int)
    requires
        0 <= i <= ops.len(),
    ensures
        depth_delta(ops, i, ops.len() as int) == count_code(ops, i, crate::script::Opcode::OP_IF)
            - count_code(ops, i, crate::script::Opcode::OP_ENDIF),
    decreases ops.len() - i,
{
    if i < ops.len() {
        lemma_depth_delta_counts(ops, i + 1);
    }
}

/// Law: a well-nested script opens exactly as many conditionals as it
/// closes, and on any accepting execution from a state with no open
/// conditionals the conditional stack is empty again at termination.
pub proof fn lemma_balanced_conditionals(
    st0: crate::semantics::StateV,
    ops: Seq<crate::script::TaggedOpV>,
    lt: u32,
)
    requires
        well_nested(ops),
        st0.cond.len() == 0,
    ensures
        count_code(ops, 0, crate::script::Opcode::OP_IF) == count_code(
            ops,
            0,
            crate::script::Opcode::OP_ENDIF,
        ),
        forall|st2: crate::semantics::StateV| #[trigger] crate::semantics::reaches(
            st0,
            ops,
            0,
            st2,
            ops.len() as int,
            lt,
        ) ==> st2.cond.len() == 0,
{
    lemma_depth_delta_counts(ops, 0);
    assert(depth_delta(ops, 0, ops.len() as int) == 0);
    assert forall|st2: crate::semantics::StateV| #[trigger] crate::semantics::reaches(
        st0,
        ops,
        0,
        st2,
        ops.len() as int,
        lt,
    ) implies st2.cond.len() == 0 by {
        lemma_cond_delta_segment(st0, ops, 0, st2, ops.len() as int, lt);
    }
}

/// The deltas of a post-step stack split at `b`: every slot below
/// survives from before the step with its delta reset, every slot at or
/// above carries a visible delta.
pub open spec fn delta_bound_ok(b: int, pre: Seq<ItemV>, post: Seq<ItemV>) -> bool {
    &&& 0 <= b <= post.len()
    &&& forall|k: int| 0 <= k < b ==> #[trigger] post[k]
        == crate::semantics::reset_deltas(pre)[k]
    &&& forall|k: int| b <= k < post.len() ==> #[trigger] post[k].delta
        != crate::value::StackItemDelta::Untouched
}

/// The non-Untouched deltas sit exactly on a top segment of the stack.
pub open spec fn deltas_partitioned(pre: Seq<ItemV>, post: Seq<ItemV>) -> bool {
    exists|b: int| #[trigger] delta_bound_ok(b, pre, post)
}

/// Law: after any successful step, exactly the slots the op produced or
/// rearranged carry non-Untouched deltas: they form the top segment of
/// the stack, and every slot below survives from before the step,
/// reset to Untouched.
#[verifier::rlimit(100)]
pub proof fn lemma_step_deltas(
    st: crate::semantics::StateV,
    op: crate::script::TaggedOpV,
    lt: u32,
    env: crate::semantics::EnvV,
    st2: crate::semantics::StateV,
)
    requires
        crate::semantics::step(st, op, lt, env) == Ok::<crate::semantics::StateV, ErrV>(st2),
    ensures
        deltas_partitioned(st.stack, st2.stack),
{
    let pre = st.stack;
    let rs = crate::semantics::reset_deltas(pre);
    let n2 = st2.stack.len() as int;
    let executing = crate::semantics::all_exec(st.cond);
    match op.op {
        crate::script::OpV::Code(c) => {
            let is_cond = c == crate::script::Opcode::OP_IF || c == crate::script::Opcode::OP_ELSE
                || c == crate::script::Opcode::OP_ENDIF;
            if !is_cond && !executing {
                assert(delta_bound_ok(n2, pre, st2.stack));
            } else {
                match c {
                    crate::script::Opcode::OP_PICK => {
                        assert(delta_bound_ok(n2 - 1, pre, st2.stack));
                    },
                    crate::script::Opcode::OP_ROLL => {
                        let popped = crate::semantics::pop_int_v(rs);
                        let s1 = popped->Ok_0.1;
                        let depth = popped->Ok_0.0;
                        let idx = s1.len() - 1 - depth;
                        assert(delta_bound_ok(idx, pre, st2.stack));
                    },
                    crate::script::Opcode::OP_TOALTSTACK | crate::script::Opcode::OP_VERIFY
                    | crate::script::Opcode::OP_EQUALVERIFY
                    | crate::script::Opcode::OP_NUMEQUALVERIFY | crate::script::Opcode::OP_IF
                    | crate::script::Opcode::OP_ELSE | crate::script::Opcode::OP_ENDIF
                    | crate::script::Opcode::OP_CODESEPARATOR
                    | crate::script::Opcode::OP_CHECKSEQUENCEVERIFY
                    | crate::script::Opcode::OP_CHECKSIGVERIFY
                    | crate::script::Opcode::OP_CHECKDATASIGVERIFY => {
                        assert(delta_bound_ok(n2, pre, st2.stack));
                    },
                    crate::script::Opcode::OP_SPLIT => {
                        assert(delta_bound_ok(n2 - 2, pre, st2.stack));
                    },
                    crate::script::Opcode::OP_FROMALTSTACK | crate::script::Opcode::OP_CAT
                    | crate::script::Opcode::OP_NUM2BIN | crate::script::Opcode::OP_BIN2NUM
                    | crate::script::Opcode::OP_SIZE | crate::script::Opcode::OP_SHA1
                    | crate::script::Opcode::OP_RIPEMD160 | crate::script::Opcode::OP_SHA256
                    | crate::script::Opcode::OP_HASH160 | crate::script::Opcode::OP_HASH256
                    | crate::script::Opcode::OP_REVERSEBYTES | crate::script::Opcode::OP_EQUAL
                    | crate::script::Opcode::OP_AND | crate::script::Opcode::OP_OR
                    | crate::script::Opcode::OP_XOR | crate::script::Opcode::OP_NOT
                    | crate::script::Opcode::OP_BOOLAND | crate::script::Opcode::OP_BOOLOR
                    | crate::script::Opcode::OP_0NOTEQUAL | crate::script::Opcode::OP_NUMEQUAL
                    | crate::script::Opcode::OP_LESSTHAN | crate::script::Opcode::OP_GREATERTHAN
                    | crate::script::Opcode::OP_LESSTHANOREQUAL
                    | crate::script::Opcode::OP_GREATERTHANOREQUAL
                    | crate::script::Opcode::OP_MIN | crate::script::Opcode::OP_MAX
                    | crate::script::Opcode::OP_WITHIN | crate::script::Opcode::OP_1ADD
                    | crate::script::Opcode::OP_1SUB | crate::script::Opcode::OP_NEGATE
                    | crate::script::Opcode::OP_ABS | crate::script::Opcode::OP_ADD
                    | crate::script::Opcode::OP_SUB | crate::script::Opcode::OP_DIV
                    | crate::script::Opcode::OP_MOD
                    | crate::script::Opcode::OP_CHECKLOCKTIMEVERIFY
                    | crate::script::Opcode::OP_CHECKSIG
                    | crate::script::Opcode::OP_CHECKDATASIG => {
                        assert(delta_bound_ok(n2 - 1, pre, st2.stack));
                    },
                    _ => {
                        crate::script::lemma_table_deltas_marked(c);
                        let base = rs.len() - crate::script::table_arity(c);
                        assert(delta_bound_ok(base, pre, st2.stack));
                    },
                }
            }
        },
        crate::script::OpV::Invalid(_) => {
            assert(delta_bound_ok(n2, pre, st2.stack));
        },
        _ => {
            if executing {
                assert(delta_bound_ok(n2 - 1, pre, st2.stack));
            } else {
                assert(delta_bound_ok(n2, pre, st2.stack));
            }
        },
    }
}

/// Reversing a byte sequence twice is the identity.
pub proof fn lemma_reverse_involution(b: Seq<u8>)
    ensures
        seq_reverse(seq_reverse(b)) == b,
{
    assert(seq_reverse(seq_reverse(b)) =~= b);
}

} // verus!
