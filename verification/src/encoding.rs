//! The script-number codec: little-endian sign-magnitude encodings of
//! integers, the minimality discipline, and the boolean encoding.

use vstd::prelude::*;

verus! {

/// Largest magnitude a script number may take: the numeric range is
/// `-INT_MAX ..= INT_MAX` (the most negative two's-complement value is not
/// representable in an eight-byte sign-magnitude encoding).
pub const INT_MAX: i64 = 0x7fff_ffff_ffff_ffff;

/// Whether a mathematical integer lies in the script numeric range.
pub open spec fn in_range(x: int) -> bool {
    -(INT_MAX as int) <= x <= INT_MAX as int
}

/// 256 to the power `n`.
pub open spec fn pow256(n: nat) -> nat
    decreases n,
{
    if n == 0 {
        1
    } else {
        256 * pow256((n - 1) as nat)
    }
}

/// The unsigned little-endian value of a byte sequence.
pub open spec fn le_val(b: Seq<u8>) -> nat
    decreases b.len(),
{
    if b.len() == 0 {
        0
    } else {
        (b[0] + 256 * le_val(b.drop_first())) as nat
    }
}

/// The signed value of a little-endian sign-magnitude byte sequence:
/// the top bit of the last byte is the sign, the rest is the magnitude.
pub open spec fn sm_val(b: Seq<u8>) -> int {
    if b.len() == 0 {
        0
    } else if b.last() < 128 {
        le_val(b) as int
    } else {
        128 * pow256((b.len() - 1) as nat) - le_val(b)
    }
}

/// Whether a byte sequence is the minimal sign-magnitude encoding of its
/// value: no shorter sequence encodes the same integer.
pub open spec fn is_minimal(b: Seq<u8>) -> bool {
    ||| b.len() == 0
    ||| b.last() % 128 != 0
    ||| (b.len() >= 2 && b[b.len() - 2] >= 128)
}

/// The magnitude of a mathematical integer.
pub open spec fn int_mag(x: int) -> nat {
    if x < 0 {
        (-x) as nat
    } else {
        x as nat
    }
}

/// The base-256 digits of `m`, least significant first, without leading
/// zeros.
pub open spec fn mag_bytes(m: nat) -> Seq<u8>
    decreases m,
{
    if m == 0 {
        Seq::empty()
    } else {
        seq![(m % 256) as u8] + mag_bytes(m / 256)
    }
}

/// The minimal sign-magnitude encoding of an integer: empty for zero,
/// otherwise the magnitude digits with the sign folded into (or appended
/// after) the top byte.
pub open spec fn min_enc(x: int) -> Seq<u8> {
    if x == 0 {
        Seq::empty()
    } else {
        let mb = mag_bytes(int_mag(x));
        if mb.last() >= 128 {
            mb.push(if x < 0 { 128u8 } else { 0u8 })
        } else if x < 0 {
            mb.update(mb.len() - 1, (mb.last() + 128) as u8)
        } else {
            mb
        }
    }
}

/// The canonical encoding of a boolean: empty for false, a single 0x01
/// byte for true.
pub open spec fn bool_enc(b: bool) -> Seq<u8> {
    if b {
        seq![1u8]
    } else {
        Seq::empty()
    }
}

/// Base-256 digits of `m` in exactly `n` positions, least significant
/// first, zero-padded at the top (truncated if `m` does not fit).
pub open spec fn mag_bytes_fixed(m: nat, n: nat) -> Seq<u8>
    decreases n,
{
    if n == 0 {
        Seq::empty()
    } else {
        seq![(m % 256) as u8] + mag_bytes_fixed(m / 256, (n - 1) as nat)
    }
}

/// Whether `x` is representable in exactly `n` sign-magnitude bytes.
pub open spec fn fits_in(x: int, n: nat) -> bool {
    if n == 0 {
        x == 0
    } else {
        int_mag(x) < 128 * pow256((n - 1) as nat)
    }
}

/// The `n`-byte sign-magnitude encoding of `x` (meaningful when
/// `fits_in(x, n)` holds): padded magnitude digits with the sign bit set
/// on the last byte for negative values.
pub open spec fn fixed_enc(x: int, n: nat) -> Seq<u8> {
    let mb = mag_bytes_fixed(int_mag(x), n);
    if x < 0 && n > 0 {
        mb.update(mb.len() - 1, (mb.last() + 128) as u8)
    } else {
        mb
    }
}

/// Concrete values of the small powers of 256 that the range arguments
/// need.
pub proof fn lemma_pow256_concrete()
    ensures
        pow256(6nat) == 0x1_0000_0000_0000,
        pow256(7nat) == 0x100_0000_0000_0000,
        pow256(8nat) == 0x1_0000_0000_0000_0000,
{
    assert(pow256(0nat) == 1);
    assert(pow256(1nat) == 256 * pow256(0nat));
    assert(pow256(2nat) == 256 * pow256(1nat));
    assert(pow256(3nat) == 256 * pow256(2nat));
    assert(pow256(4nat) == 256 * pow256(3nat));
    assert(pow256(5nat) == 256 * pow256(4nat));
    assert(pow256(6nat) == 256 * pow256(5nat));
    assert(pow256(7nat) == 256 * pow256(6nat));
    assert(pow256(8nat) == 256 * pow256(7nat));
}

pub proof fn lemma_pow256_pos(n: nat)
    ensures
        pow256(n) >= 1,
    decreases n,
{
    if n > 0 {
        lemma_pow256_pos((n - 1) as nat);
    }
}

/// The little-endian value of a sequence splits at the last byte.
pub proof fn lemma_le_val_split_last(b: Seq<u8>)
    requires
        b.len() >= 1,
    ensures
        le_val(b) == le_val(b.drop_last()) + b.last() * pow256((b.len() - 1) as nat),
    decreases b.len(),
{
    if b.len() == 1 {
        assert(b.drop_last().len() == 0);
        assert(b.drop_first().len() == 0);
        assert(le_val(b.drop_first()) == 0);
        assert(le_val(b) == b[0]);
        assert(le_val(b.drop_last()) == 0);
        assert((b.len() - 1) as nat == 0nat);
        assert(pow256(0nat) == 1);
        assert(b.last() == b[0]);
    } else {
        let t = b.drop_first();
        lemma_le_val_split_last(t);
        let p2 = pow256((b.len() - 2) as nat);
        assert(t.drop_last() =~= b.drop_last().drop_first());
        assert(t.last() == b.last());
        assert(le_val(b) == b[0] + 256 * le_val(t));
        assert(b.drop_last().len() == b.len() - 1);
        assert(b.drop_last()[0] == b[0]);
        assert(le_val(b.drop_last()) == b[0] + 256 * le_val(b.drop_last().drop_first()));
        assert((t.len() - 1) as nat == (b.len() - 2) as nat);
        assert(le_val(t) == le_val(t.drop_last()) + t.last() * p2);
        assert(pow256((b.len() - 1) as nat) == 256 * p2);
        assert(256 * le_val(t) == 256 * le_val(t.drop_last()) + t.last() * (256 * p2))
            by (nonlinear_arith)
        requires
            le_val(t) == le_val(t.drop_last()) + t.last() * p2,
        ;
        assert(b.last() * pow256((b.len() - 1) as nat) == t.last() * (256 * p2));
        assert(le_val(b.drop_last()) == b[0] + 256 * le_val(t.drop_last()));
        assert(le_val(b) == le_val(b.drop_last()) + b.last() * pow256((b.len() - 1) as nat));
    }
}

/// The value of a byte sequence is bounded by 256 to its length.
pub proof fn lemma_le_val_bound(b: Seq<u8>)
    ensures
        le_val(b) < pow256(b.len()),
    decreases b.len(),
{
    if b.len() == 0 {
    } else {
        lemma_le_val_bound(b.drop_first());
        assert(b[0] < 256);
        assert(b[0] + 256 * le_val(b.drop_first()) < 256 * pow256((b.len() - 1) as nat))
            by (nonlinear_arith)
        requires
            b[0] < 256,
            le_val(b.drop_first()) < pow256((b.len() - 1) as nat),
        ;
    }
}

/// The magnitude digits evaluate back to the magnitude.
pub proof fn lemma_mag_bytes_val(m: nat)
    ensures
        le_val(mag_bytes(m)) == m,
    decreases m,
{
    if m == 0 {
    } else {
        lemma_mag_bytes_val(m / 256);
        let s = mag_bytes(m);
        assert(s.drop_first() =~= mag_bytes(m / 256));
        assert(s[0] == m % 256);
        assert(m % 256 + 256 * (m / 256) == m) by (nonlinear_arith);
    }
}

/// The top magnitude digit of a positive number is not zero.
pub proof fn lemma_mag_bytes_last(m: nat)
    requires
        m > 0,
    ensures
        mag_bytes(m).len() >= 1,
        mag_bytes(m).last() != 0,
    decreases m,
{
    if m / 256 == 0 {
        assert(mag_bytes(m / 256).len() == 0);
        assert(mag_bytes(m).last() == m % 256);
        assert(m % 256 == m) by (nonlinear_arith)
            requires m > 0 && m / 256 == 0,
        ;
    } else {
        lemma_mag_bytes_last(m / 256);
        assert(mag_bytes(m).last() == mag_bytes(m / 256).last());
    }
}

/// Magnitude digits of a value below `pow256(n)` number at most `n`.
pub proof fn lemma_mag_bytes_len(m: nat, n: nat)
    requires
        m < pow256(n),
    ensures
        mag_bytes(m).len() <= n,
    decreases n,
{
    if m == 0 {
    } else {
        assert(n > 0) by {
            if n == 0 {
                assert(pow256(0nat) == 1);
            }
        }
        assert(m / 256 < pow256((n - 1) as nat)) by (nonlinear_arith)
        requires
            m < 256 * pow256((n - 1) as nat),
        ;
        lemma_mag_bytes_len(m / 256, (n - 1) as nat);
    }
}

/// Magnitude digits of a value at or above `pow256(n)` number more than `n`.
pub proof fn lemma_mag_bytes_len_lower(m: nat, n: nat)
    requires
        m >= pow256(n),
    ensures
        mag_bytes(m).len() > n,
    decreases n,
{
    lemma_pow256_pos(n);
    if n == 0 {
    } else {
        assert(m / 256 >= pow256((n - 1) as nat)) by (nonlinear_arith)
        requires
            m >= 256 * pow256((n - 1) as nat),
        ;
        lemma_mag_bytes_len_lower(m / 256, (n - 1) as nat);
    }
}

/// The minimal encoding really is minimal, and evaluates back to its
/// integer.
pub proof fn lemma_min_enc_ok(x: int)
    ensures
        is_minimal(min_enc(x)),
        sm_val(min_enc(x)) == x,
        min_enc(x).len() == 0 <==> x == 0,
{
    if x == 0 {
    } else {
        let m = int_mag(x);
        let mb = mag_bytes(m);
        lemma_mag_bytes_val(m);
        lemma_mag_bytes_last(m);
        lemma_le_val_split_last(mb);
        lemma_le_val_bound(mb.drop_last());
        let p = pow256((mb.len() - 1) as nat);
        if mb.last() >= 128 {
            let e = mb.push(if x < 0 { 128u8 } else { 0u8 });
            assert(e[e.len() - 2] == mb.last());
            assert(e.drop_last() =~= mb);
            lemma_le_val_split_last(e);
            assert(pow256(((e.len() - 1)) as nat) == 256 * p);
            if x < 0 {
                assert(le_val(e) == m + 128 * (256 * p));
                assert(sm_val(e) == 128 * (256 * p) - le_val(e));
                assert(sm_val(e) == -(m as int));
            } else {
                assert(e.last() == 0);
                assert(e.last() * pow256((e.len() - 1) as nat) == 0) by (nonlinear_arith)
                    requires e.last() == 0,
                ;
                assert(le_val(e) == m);
            }
        } else if x < 0 {
            let e = mb.update(mb.len() - 1, (mb.last() + 128) as u8);
            assert(e.drop_last() =~= mb.drop_last());
            assert(e.last() == mb.last() + 128);
            lemma_le_val_split_last(e);
            assert(e.last() % 128 == mb.last() % 128);
            assert(mb.last() % 128 == mb.last()) by (nonlinear_arith)
                requires 0 < mb.last() < 128,
            ;
            assert(le_val(e) == le_val(mb.drop_last()) + (mb.last() + 128) * p);
            assert((mb.last() + 128) * p == mb.last() * p + 128 * p) by (nonlinear_arith);
            assert(le_val(e) == m + 128 * p);
            assert(sm_val(e) == 128 * p - le_val(e));
        } else {
            assert(mb.last() % 128 == mb.last()) by (nonlinear_arith)
                requires 0 < mb.last() < 128,
            ;
            assert(sm_val(mb) == m);
        }
    }
}

/// A sign-magnitude sequence of at most eight bytes always carries a value
/// in the script numeric range.
pub proof fn lemma_short_in_range(b: Seq<u8>)
    requires
        b.len() <= 8,
    ensures
        in_range(sm_val(b)),
{
    if b.len() == 0 {
    } else {
        let p = pow256((b.len() - 1) as nat);
        lemma_le_val_split_last(b);
        lemma_le_val_bound(b.drop_last());
        lemma_pow256_le(((b.len() - 1)) as nat, 7nat);
        lemma_pow256_concrete();
        if b.last() < 128 {
            assert(le_val(b) < 128 * p) by (nonlinear_arith)
            requires
                le_val(b) == le_val(b.drop_last()) + b.last() * p,
                le_val(b.drop_last()) < p,
                b.last() < 128,
                p >= 1,
            ;
        } else {
            assert(le_val(b) < 256 * p) by (nonlinear_arith)
            requires
                le_val(b) == le_val(b.drop_last()) + b.last() * p,
                le_val(b.drop_last()) < p,
                b.last() < 256,
                p >= 1,
            ;
            assert(le_val(b) >= 128 * p) by (nonlinear_arith)
            requires
                le_val(b) == le_val(b.drop_last()) + b.last() * p,
                b.last() >= 128,
                p >= 1,
            ;
        }
        assert(128 * p <= 128 * pow256(7nat)) by (nonlinear_arith)
            requires p <= pow256(7nat),
        ;
    }
}

pub proof fn lemma_pow256_le(a: nat, b: nat)
    requires
        a <= b,
    ensures
        pow256(a) <= pow256(b),
    decreases b,
{
    if a < b {
        lemma_pow256_le(a, (b - 1) as nat);
        lemma_pow256_pos((b - 1) as nat);
    }
}

/// A minimal sign-magnitude sequence of nine or more bytes carries a value
/// outside the script numeric range.
pub proof fn lemma_long_minimal_out_of_range(b: Seq<u8>)
    requires
        is_minimal(b),
        b.len() >= 9,
    ensures
        !in_range(sm_val(b)),
{
    let n = b.len();
    let p = pow256((n - 1) as nat);
    lemma_le_val_split_last(b);
    lemma_pow256_le(8nat, (n - 1) as nat);
    lemma_pow256_concrete();
    if b.last() % 128 != 0 {
        let low = b.last() % 128;
        assert(b.last() >= low) by (nonlinear_arith)
            requires low == b.last() % 128,
        ;
        if b.last() < 128 {
            assert(sm_val(b) == le_val(b));
            assert(le_val(b) >= low * p) by (nonlinear_arith)
            requires
                le_val(b) == le_val(b.drop_last()) + b.last() * p,
                b.last() >= low,
                p >= 0,
            ;
            assert(low * p >= p) by (nonlinear_arith)
                requires low >= 1, p >= 1,
            ;
            lemma_pow256_pos((n - 1) as nat);
        } else {
            // magnitude is le_val minus the sign contribution
            assert(le_val(b) - 128 * p >= low * p) by (nonlinear_arith)
            requires
                le_val(b) == le_val(b.drop_last()) + b.last() * p,
                b.last() >= 128 + low,
                p >= 0,
                le_val(b.drop_last()) >= 0,
            ;
            assert(low * p >= p) by (nonlinear_arith)
                requires low >= 1, p >= 1,
            ;
            lemma_pow256_pos((n - 1) as nat);
            assert(sm_val(b) == 128 * p - le_val(b));
        }
    } else {
        // minimality then demands a sign bit on the next-to-last byte
        let q = pow256((n - 2) as nat);
        let d = b.drop_last();
        lemma_le_val_split_last(d);
        assert(d.last() == b[n - 2]);
        assert(le_val(d) >= 128 * q) by (nonlinear_arith)
        requires
            le_val(d) == le_val(d.drop_last()) + d.last() * q,
            d.last() >= 128,
            q >= 0,
            le_val(d.drop_last()) >= 0,
        ;
        lemma_pow256_le(7nat, (n - 2) as nat);
        lemma_pow256_concrete();
        assert(128 * q >= 128 * pow256(7nat)) by (nonlinear_arith)
            requires q >= pow256(7nat),
        ;
        if b.last() < 128 {
            assert(b.last() == 0) by (nonlinear_arith)
                requires b.last() % 128 == 0, b.last() < 128,
            ;
            assert(sm_val(b) == le_val(b));
            assert(le_val(b) >= le_val(d)) by (nonlinear_arith)
            requires
                le_val(b) == le_val(d) + b.last() * p,
                b.last() >= 0,
                p >= 0,
            ;
        } else {
            assert(b.last() == 128) by (nonlinear_arith)
                requires b.last() % 128 == 0, 128 <= b.last() < 256,
            ;
            assert(sm_val(b) == 128 * p - le_val(b));
            assert(le_val(b) - 128 * p == le_val(d)) by (nonlinear_arith)
            requires
                le_val(b) == le_val(d) + b.last() * p,
                b.last() == 128,
            ;
        }
    }
}

/// Encodes an integer in the script numeric range as its minimal
/// sign-magnitude little-endian byte sequence.
pub fn encode_int(x: i64) -> (r: Vec<u8>)
    requires
        in_range(x as int),
    ensures
        r@ == min_enc(x as int),
        is_minimal(r@),
        sm_val(r@) == x as int,
{
    proof {
        lemma_min_enc_ok(x as int);
    }
    let mut r: Vec<u8> = Vec::new();
    if x == 0 {
        assert(r@ =~= min_enc(x as int));
        return r;
    }
    let neg = x < 0;
    let m0: u64 = if x < 0 {
        (-x) as u64
    } else {
        x as u64
    };
    let mut m: u64 = m0;
    while m > 0
        invariant
            mag_bytes(m0 as nat) == r@ + mag_bytes(m as nat),
        decreases m,
    {
        let ghost r_old = r@;
        let ghost m_old = m as nat;
        r.push((m % 256) as u8);
        m = m / 256;
        proof {
            assert(mag_bytes(m_old) == seq![(m_old % 256) as u8] + mag_bytes(m_old / 256));
            assert(r@ + mag_bytes(m as nat) =~= r_old + mag_bytes(m_old));
        }
    }
    proof {
        assert(mag_bytes(m0 as nat) =~= r@);
        lemma_mag_bytes_last(m0 as nat);
    }
    let n = r.len();
    let top = r[n - 1];
    if top >= 128 {
        r.push(if neg {
            128u8
        } else {
            0u8
        });
        assert(r@ =~= min_enc(x as int));
    } else if neg {
        r.set(n - 1, top + 128);
        assert(r@ =~= min_enc(x as int));
    } else {
        assert(r@ =~= min_enc(x as int));
    }
    r
}

/// Encodes a boolean: empty for false, a single 0x01 byte for true.
pub fn encode_bool(b: bool) -> (r: Vec<u8>)
    ensures
        r@ == bool_enc(b),
{
    let mut r: Vec<u8> = Vec::new();
    if b {
        r.push(1u8);
        assert(r@ =~= bool_enc(b));
    } else {
        assert(r@ =~= bool_enc(b));
    }
    r
}

/// Reads the value of a sign-magnitude sequence of at most eight bytes.
pub fn decode_i64(b: &Vec<u8>) -> (r: i64)
    requires
        b@.len() <= 8,
    ensures
        r as int == sm_val(b@),
        in_range(r as int),
{
    proof {
        lemma_short_in_range(b@);
    }
    let n = b.len();
    if n == 0 {
        return 0;
    }
    let mut acc: u64 = 0;
    let mut mult: u64 = 1;
    let mut i: usize = 0;
    proof {
        assert(b@.take(0) =~= Seq::<u8>::empty());
    }
    while i < n - 1
        invariant
            1 <= n == b@.len() <= 8,
            i <= n - 1,
            mult == pow256(i as nat),
            acc == le_val(b@.take(i as int)),
            acc < pow256(i as nat),
        decreases n - i,
    {
        proof {
            lemma_pow256_le(i as nat, 6nat);
            lemma_pow256_concrete();
            lemma_le_val_split_last(b@.take(i + 1));
            assert(b@.take(i + 1).drop_last() =~= b@.take(i as int));
            assert(b@.take(i + 1).last() == b@[i as int]);
            assert(acc + b@[i as int] * pow256(i as nat) < 256 * pow256(i as nat))
                by (nonlinear_arith)
            requires
                acc < pow256(i as nat),
                b@[i as int] < 256,
            ;
        }
        acc = acc + (b[i] as u64) * mult;
        i = i + 1;
        proof {
            lemma_pow256_le(i as nat, 7nat);
            lemma_pow256_concrete();
        }
        mult = mult * 256;
    }
    let last = b[n - 1];
    let neg = last >= 128;
    let low: u64 = (last % 128) as u64;
    proof {
        lemma_le_val_split_last(b@);
        assert(b@.drop_last() =~= b@.take(n - 1));
        lemma_pow256_le((n - 1) as nat, 7nat);
        lemma_pow256_concrete();
        assert(acc + low * pow256((n - 1) as nat) < 128 * pow256((n - 1) as nat)
            + 128 * pow256((n - 1) as nat)) by (nonlinear_arith)
        requires
            acc < pow256((n - 1) as nat),
            low < 128,
        ;
        if neg {
            assert(last == low + 128) by (nonlinear_arith)
                requires 128 <= last < 256, low == last % 128,
            ;
            assert((low + 128) * pow256((n - 1) as nat)
                == low * pow256((n - 1) as nat) + 128 * pow256((n - 1) as nat))
                by (nonlinear_arith);
        } else {
            assert(last == low) by (nonlinear_arith)
                requires last < 128, low == last % 128,
            ;
        }
    }
    let mag: u64 = acc + low * mult;
    if neg {
        -(mag as i64)
    } else {
        mag as i64
    }
}

/// Re-encodes a byte sequence minimally: the result is the minimal
/// encoding of the value the input carries.
pub fn trim_minimal(b: &Vec<u8>) -> (r: Vec<u8>)
    ensures
        r@ == min_enc(sm_val(b@)),
        is_minimal(r@),
        sm_val(r@) == sm_val(b@),
{
    proof {
        lemma_min_enc_ok(sm_val(b@));
    }
    let n = b.len();
    if n == 0 {
        let r: Vec<u8> = Vec::new();
        assert(r@ =~= min_enc(sm_val(b@)));
        return r;
    }
    let last = b[n - 1];
    let neg = last >= 128;
    // magnitude digits: all bytes with the sign bit cleared on the last
    let mut mag: Vec<u8> = Vec::new();
    let mut i: usize = 0;
    while i < n - 1
        invariant
            n == b@.len() >= 1,
            i <= n - 1,
            mag@ =~= b@.take(i as int),
        decreases n - i,
    {
        mag.push(b[i]);
        i = i + 1;
    }
    mag.push(last % 128);
    proof {
        assert(mag@.drop_last() =~= b@.take(n - 1));
        assert(b@.drop_last() =~= b@.take(n - 1));
        lemma_le_val_split_last(mag@);
        lemma_le_val_split_last(b@);
        let p = pow256((n - 1) as nat);
        if neg {
            assert(last % 128 + 128 == last) by (nonlinear_arith)
                requires 128 <= last < 256,
            ;
            assert((last % 128) * p + 128 * p == last * p) by (nonlinear_arith)
                requires last % 128 + 128 == last,
            ;
            assert(le_val(mag@) == le_val(b@) - 128 * p);
            assert(le_val(mag@) == int_mag(sm_val(b@))) by {
                lemma_le_val_bound(b@.drop_last());
                assert(le_val(b@) >= 128 * p) by (nonlinear_arith)
                requires
                    le_val(b@) == le_val(b@.drop_last()) + last * p,
                    last >= 128,
                    p >= 0,
                ;
            }
        } else {
            assert(last % 128 == last) by (nonlinear_arith)
                requires last < 128,
            ;
            assert(mag@ =~= b@);
            assert(le_val(mag@) == int_mag(sm_val(b@)));
        }
    }
    // now mag@ is the little-endian magnitude: re-encode it minimally
    let m_val = Ghost(int_mag(sm_val(b@)));
    let mut k = mag.len();
    proof {
        assert(mag@.take(mag@.len() as int) =~= mag@);
    }
    while k > 0 && mag[k - 1] == 0
        invariant
            k <= mag@.len(),
            le_val(mag@.take(k as int)) == m_val@,
        decreases k,
    {
        proof {
            let s = mag@.take(k as int);
            lemma_le_val_split_last(s);
            assert(s.last() == mag@[k - 1]);
            assert(s.last() == 0);
            assert(s.drop_last() =~= mag@.take(k - 1));
            assert(s.last() * pow256((s.len() - 1) as nat) == 0) by (nonlinear_arith)
                requires s.last() == 0,
            ;
            assert(le_val(mag@.take(k - 1)) == m_val@);
        }
        k = k - 1;
    }
    if k == 0 {
        // the magnitude is zero: both signs encode as the empty sequence
        let r: Vec<u8> = Vec::new();
        proof {
            assert(mag@.take(0) =~= Seq::<u8>::empty());
            assert(m_val@ == 0);
            assert(sm_val(b@) == 0);
            assert(r@ =~= min_enc(sm_val(b@)));
        }
        return r;
    }
    let mut r: Vec<u8> = Vec::new();
    let mut i: usize = 0;
    while i < k
        invariant
            k <= mag@.len(),
            i <= k,
            r@ =~= mag@.take(k as int).take(i as int),
        decreases k - i,
    {
        proof {
            assert(mag@.take(k as int)[i as int] == mag@[i as int]);
        }
        r.push(mag[i]);
        i = i + 1;
    }
    proof {
        assert(r@ =~= mag@.take(k as int));
        // the trimmed digits are exactly the canonical magnitude digits
        lemma_mag_bytes_exact(r@);
        assert(r@.last() == mag@[k - 1]);
        assert(m_val@ > 0) by {
            lemma_le_val_split_last(r@);
            lemma_pow256_pos((k - 1) as nat);
            assert(le_val(r@.drop_last()) + r@.last() * pow256((k - 1) as nat) >= 1)
                by (nonlinear_arith)
            requires
                r@.last() >= 1,
                pow256((k - 1) as nat) >= 1,
                le_val(r@.drop_last()) >= 0,
            ;
        }
        assert(sm_val(b@) != 0);
        assert(mag_bytes(int_mag(sm_val(b@))) == r@);
    }
    let klen = r.len();
    let top = r[klen - 1];
    if top >= 128 {
        r.push(if neg {
            128u8
        } else {
            0u8
        });
        proof {
            if neg {
                assert(sm_val(b@) < 0);
            } else {
                assert(sm_val(b@) > 0);
            }
            assert(r@ =~= min_enc(sm_val(b@)));
        }
    } else if neg {
        proof {
            assert(sm_val(b@) < 0);
        }
        r.set(klen - 1, top + 128);
        assert(r@ =~= min_enc(sm_val(b@)));
    } else {
        proof {
            assert(sm_val(b@) > 0);
        }
        assert(r@ =~= min_enc(sm_val(b@)));
    }
    r
}

/// Fixed-width magnitude digits evaluate back to the magnitude when it
/// fits.
pub proof fn lemma_mag_fixed_val(m: nat, n: nat)
    requires
        m < pow256(n),
    ensures
        mag_bytes_fixed(m, n).len() == n,
        le_val(mag_bytes_fixed(m, n)) == m,
    decreases n,
{
    if n == 0 {
    } else {
        assert(m / 256 < pow256((n - 1) as nat)) by (nonlinear_arith)
        requires
            m < 256 * pow256((n - 1) as nat),
        ;
        lemma_mag_fixed_val(m / 256, (n - 1) as nat);
        let s = mag_bytes_fixed(m, n);
        assert(s.drop_first() =~= mag_bytes_fixed(m / 256, (n - 1) as nat));
        assert(s[0] == m % 256);
        assert(m % 256 + 256 * (m / 256) == m) by (nonlinear_arith);
    }
}

/// The width of fixed-width magnitude digits.
pub proof fn lemma_mag_fixed_len(m: nat, n: nat)
    ensures
        mag_bytes_fixed(m, n).len() == n,
    decreases n,
{
    if n > 0 {
        lemma_mag_fixed_len(m / 256, (n - 1) as nat);
    }
}

/// The top fixed-width digit stays below the sign bit when the
/// magnitude leaves room for it.
pub proof fn lemma_mag_fixed_last(m: nat, n: nat)
    requires
        n >= 1,
        m < 128 * pow256((n - 1) as nat),
    ensures
        mag_bytes_fixed(m, n).last() < 128,
    decreases n,
{
    lemma_mag_fixed_len(m, n);
    if n == 1 {
        assert(m < 128);
        assert(m % 256 == m) by (nonlinear_arith)
            requires m < 128,
        ;
        assert(mag_bytes_fixed(m, n).last() == m % 256);
    } else {
        assert(m / 256 < 128 * pow256((n - 2) as nat)) by (nonlinear_arith)
        requires
            m < 128 * (256 * pow256((n - 2) as nat)),
        ;
        lemma_mag_fixed_last(m / 256, (n - 1) as nat);
        lemma_mag_fixed_len(m / 256, (n - 1) as nat);
        assert(mag_bytes_fixed(m, n).last()
            == mag_bytes_fixed(m / 256, (n - 1) as nat).last());
    }
}

/// Whether `x` is representable in exactly `n` sign-magnitude bytes.
pub fn fits_check(x: i64, n: i64) -> (r: bool)
    requires
        in_range(x as int),
        n >= 0,
    ensures
        r == fits_in(x as int, n as nat),
{
    if n == 0 {
        return x == 0;
    }
    let mag: u64 = if x < 0 {
        (-x) as u64
    } else {
        x as u64
    };
    if n >= 8 {
        proof {
            lemma_pow256_concrete();
            lemma_pow256_le(7nat, (n - 1) as nat);
            assert(128 * pow256(7nat) <= 128 * pow256((n - 1) as nat)) by (nonlinear_arith)
                requires pow256(7nat) <= pow256((n - 1) as nat),
            ;
        }
        return true;
    }
    let mut bound: u64 = 128;
    let mut k: i64 = 1;
    while k < n
        invariant
            1 <= k <= n <= 7,
            bound == 128 * pow256((k - 1) as nat),
            bound <= 0x80_0000_0000_0000,
        decreases n - k,
    {
        proof {
            lemma_pow256_concrete();
            lemma_pow256_le(k as nat, 6nat);
            assert(128 * (256 * pow256((k - 1) as nat)) == 256 * (128 * pow256((k - 1) as nat)))
                by (nonlinear_arith);
            assert(128 * pow256(k as nat) <= 128 * pow256(6nat)) by (nonlinear_arith)
                requires pow256(k as nat) <= pow256(6nat),
            ;
        }
        bound = bound * 256;
        k = k + 1;
    }
    mag < bound
}

/// Encodes `x` in exactly `n` sign-magnitude bytes.
pub fn encode_int_fixed(x: i64, n: u64) -> (r: Vec<u8>)
    requires
        in_range(x as int),
        fits_in(x as int, n as nat),
    ensures
        r@ == fixed_enc(x as int, n as nat),
{
    let mut r: Vec<u8> = Vec::new();
    if n == 0 {
        assert(r@ =~= fixed_enc(x as int, 0nat));
        return r;
    }
    let neg = x < 0;
    let m0: u64 = if x < 0 {
        (-x) as u64
    } else {
        x as u64
    };
    let mut m: u64 = m0;
    let mut i: u64 = 0;
    while i < n
        invariant
            i <= n,
            mag_bytes_fixed(m0 as nat, n as nat)
                == r@ + mag_bytes_fixed(m as nat, (n - i) as nat),
            r@.len() == i,
        decreases n - i,
    {
        let ghost r_old = r@;
        let ghost m_old = m as nat;
        proof {
            assert(mag_bytes_fixed(m_old, (n - i) as nat)
                == seq![(m_old % 256) as u8] + mag_bytes_fixed(m_old / 256, (n - i - 1) as nat));
        }
        r.push((m % 256) as u8);
        m = m / 256;
        i = i + 1;
        proof {
            assert(r@ + mag_bytes_fixed(m as nat, (n - i) as nat)
                =~= r_old + mag_bytes_fixed(m_old, (n - i + 1) as nat));
        }
    }
    proof {
        assert(mag_bytes_fixed(m as nat, 0nat).len() == 0);
        assert(r@ =~= mag_bytes_fixed(m0 as nat, n as nat));
        lemma_mag_fixed_last(m0 as nat, n as nat);
    }
    if neg {
        let nlen = r.len();
        let top = r[nlen - 1];
        r.set(nlen - 1, top + 128);
        assert(r@ =~= fixed_enc(x as int, n as nat));
    } else {
        assert(r@ =~= fixed_enc(x as int, n as nat));
    }
    r
}

/// A byte sequence whose top digit is not zero consists exactly of the
/// canonical magnitude digits of its value.
pub proof fn lemma_mag_bytes_exact(m: Seq<u8>)
    requires
        m.len() >= 1,
        m.last() != 0,
    ensures
        mag_bytes(le_val(m)) == m,
    decreases m.len(),
{
    if m.len() == 1 {
        assert(le_val(m) == m[0] + 256 * le_val(m.drop_first()));
        assert(m.drop_first().len() == 0);
        assert(le_val(m) == m[0]);
        assert(le_val(m) % 256 == m[0]) by (nonlinear_arith)
            requires le_val(m) == m[0], m[0] < 256,
        ;
        assert(le_val(m) / 256 == 0) by (nonlinear_arith)
            requires le_val(m) == m[0], m[0] < 256,
        ;
        assert((le_val(m) % 256) as u8 == m[0]);
        assert(mag_bytes(le_val(m)) == seq![(le_val(m) % 256) as u8] + mag_bytes(le_val(m) / 256));
        assert(mag_bytes(le_val(m)) =~= m);
    } else {
        let t = m.drop_first();
        assert(t.last() == m.last());
        lemma_mag_bytes_exact(t);
        assert(le_val(t) > 0) by {
            lemma_le_val_split_last(t);
            lemma_pow256_pos((t.len() - 1) as nat);
            assert(le_val(t.drop_last()) + t.last() * pow256((t.len() - 1) as nat) >= 1)
                by (nonlinear_arith)
            requires
                t.last() >= 1,
                pow256((t.len() - 1) as nat) >= 1,
                le_val(t.drop_last()) >= 0,
            ;
        }
        let v = le_val(m);
        assert(v == m[0] + 256 * le_val(t));
        assert(v % 256 == m[0] && v / 256 == le_val(t)) by (nonlinear_arith)
        requires
            v == m[0] + 256 * le_val(t),
            m[0] < 256,
        ;
        assert(v > 0);
        assert((v % 256) as u8 == m[0]);
        assert(mag_bytes(v) == seq![(v % 256) as u8] + mag_bytes(v / 256));
        assert(mag_bytes(v) == seq![m[0]] + t);
        assert(m =~= seq![m[0]] + t);
    }
}

} // verus!
