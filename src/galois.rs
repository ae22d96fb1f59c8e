//! Arithmetic in GF(2^8) with a caller-chosen reduction modulus.
use vstd::prelude::*;

verus! {

/// The carry-less product of `a` and `b`, reduced by `m`, XORed into `res`.
/// Each step consumes the low bit of `b`, doubles `a` and folds it back
/// below 256 with `m`.
pub open spec fn gf_mult_acc(res: u32, a: u32, b: u32, m: u32) -> u32
    decreases b,
{
    if b == 0 {
        res
    } else {
        let res1 = if b % 2 == 1 { res ^ a } else { res };
        let a1 = a << 1u32;
        let a2 = if a1 >= 256 { a1 ^ m } else { a1 };
        gf_mult_acc(res1, a2, b / 2, m)
    }
}

/// The product of `a` and `b` in the field reduced by `m`.
pub open spec fn gf_mult_spec(a: u32, b: u32, m: u32) -> u32 {
    gf_mult_acc(0, a, b, m)
}

/// `b` raised to the seventh power in the field reduced by `m`; zero stays zero.
pub open spec fn gf_exp7_spec(b: u32, m: u32) -> u64 {
    if b == 0 {
        0
    } else {
        let x = gf_mult_spec(b, b, m);
        let x = gf_mult_spec(b, x, m);
        let x = gf_mult_spec(x, x, m);
        gf_mult_spec(b, x, m) as u64
    }
}

/// A modulus of degree eight: it folds a doubled byte back into a byte.
pub open spec fn is_field_modulus(m: u32) -> bool {
    256 <= m < 512
}

/// Products of bytes stay bytes.
pub proof fn lemma_gf_mult_acc_byte(res: u32, a: u32, b: u32, m: u32)
    requires
        res < 256,
        a < 256,
        is_field_modulus(m),
    ensures
        gf_mult_acc(res, a, b, m) < 256,
    decreases b,
{
    if b != 0 {
        assert((res ^ a) < 256 && (a << 1u32) < 512 && ((a << 1u32) >= 256 ==> ((a << 1u32)
            ^ m) < 256)) by (bit_vector)
            requires
                res < 256,
                a < 256,
                256 <= m < 512,
        ;
        let res1 = if b % 2 == 1 { res ^ a } else { res };
        let a1 = a << 1u32;
        let a2 = if a1 >= 256 { a1 ^ m } else { a1 };
        lemma_gf_mult_acc_byte(res1, a2, b / 2, m);
    }
}

/// Seventh powers of bytes are bytes.
pub proof fn lemma_gf_exp7_byte(b: u32, m: u32)
    requires
        b < 256,
        is_field_modulus(m),
    ensures
        gf_exp7_spec(b, m) < 256,
{
    if b != 0 {
        let x1 = gf_mult_spec(b, b, m);
        lemma_gf_mult_acc_byte(0, b, b, m);
        let x2 = gf_mult_spec(b, x1, m);
        lemma_gf_mult_acc_byte(0, b, x1, m);
        let x3 = gf_mult_spec(x2, x2, m);
        lemma_gf_mult_acc_byte(0, x2, x2, m);
        lemma_gf_mult_acc_byte(0, b, x3, m);
    }
}

/// Multiplies `a` by `b` in GF(2^8) reduced by `m`.
pub fn gf_mult(a: u32, b: u32, m: u32) -> (r: u32)
    ensures
        r == gf_mult_spec(a, b, m),
{
    let ghost (a0, b0) = (a, b);
    let mut a = a;
    let mut b = b;
    let mut res: u32 = 0;
    while b != 0
        invariant
            gf_mult_acc(res, a, b, m) == gf_mult_spec(a0, b0, m),
        decreases b,
    {
        assert((b & 1u32 == 1u32) == (b % 2 == 1) && (b >> 1u32) == b / 2) by (bit_vector);
        if b & 1 == 1 {
            res ^= a;
        }
        a <<= 1;
        b >>= 1;
        if a >= 256 {
            a ^= m;
        }
    }
    res
}

/// Raises `b` to the seventh power in GF(2^8) reduced by `m`.
pub fn gf_exp7(b: u32, m: u32) -> (r: u64)
    requires
        b < 256,
        is_field_modulus(m),
    ensures
        r == gf_exp7_spec(b, m),
        r < 256,
{
    if b == 0 {
        return 0;
    }
    let x1 = gf_mult(b, b, m);
    proof { lemma_gf_mult_acc_byte(0, b, b, m); }
    let x2 = gf_mult(b, x1, m);
    proof { lemma_gf_mult_acc_byte(0, b, x1, m); }
    let x3 = gf_mult(x2, x2, m);
    proof { lemma_gf_mult_acc_byte(0, x2, x2, m); }
    let r = gf_mult(b, x3, m);
    proof { lemma_gf_mult_acc_byte(0, b, x3, m); }
    r as u64
}

} // verus!
