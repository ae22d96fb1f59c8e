//! The fixed 32-bit transposition that spreads S-box outputs across a word.
use vstd::prelude::*;

verus! {

/// Where each bit of the input word lands: entry `i` is the single bit that
/// input bit `i` turns into.
pub const ICE_PBOX: [u64; 32] = [
    0x00000001, 0x00000080, 0x00000400, 0x00002000,
    0x00080000, 0x00200000, 0x01000000, 0x40000000,
    0x00000008, 0x00000020, 0x00000100, 0x00004000,
    0x00010000, 0x00800000, 0x04000000, 0x20000000,
    0x00000004, 0x00000010, 0x00000200, 0x00008000,
    0x00020000, 0x00400000, 0x08000000, 0x10000000,
    0x00000002, 0x00000040, 0x00000800, 0x00001000,
    0x00040000, 0x00100000, 0x02000000, 0x80000000,
];

/// The transposition of `x` read as the bits from position `i` upward of a
/// word: each set bit `k` of `x` contributes `ICE_PBOX[i + k]`.
pub open spec fn perm_acc(x: u64, i: int) -> u64
    decreases x,
{
    if x == 0 {
        0
    } else {
        (if x % 2 == 1 { ICE_PBOX[i] } else { 0 }) | perm_acc(x / 2, i + 1)
    }
}

/// The transposition of a 32-bit word.
pub open spec fn perm32_spec(x: u64) -> u64 {
    perm_acc(x, 0)
}

proof fn lemma_perm_step(x: u64, i: u64)
    by (bit_vector)
    requires
        x != 0,
        i <= 32,
        x <= 0xFFFF_FFFFu64 >> i,
    ensures
        i < 32,
        x >> 1u64 <= 0xFFFF_FFFFu64 >> vstd::prelude::add(i, 1u64),
        x >> 1u64 == x / 2,
        (x & 1u64 == 1u64) == (x % 2 == 1),
{
}

proof fn lemma_or_facts(a: u64, b: u64, c: u64)
    by (bit_vector)
    ensures
        (a | b) | c == a | (b | c),
        a | 0u64 == a,
        0u64 | a == a,
        a <= 0xFFFF_FFFFu64 && b <= 0xFFFF_FFFFu64 ==> a | b <= 0xFFFF_FFFFu64,
{
}

/// A transposed 32-bit word is a 32-bit word.
pub proof fn lemma_perm_acc_bound(x: u64, i: int)
    requires
        0 <= i <= 32,
        x <= 0xFFFF_FFFFu64 >> (i as u64),
    ensures
        perm_acc(x, i) <= 0xFFFF_FFFF,
    decreases x,
{
    if x != 0 {
        lemma_perm_step(x, i as u64);
        lemma_perm_acc_bound(x / 2, i + 1);
        let p: u64 = if x % 2 == 1 { ICE_PBOX[i] } else { 0 };
        lemma_or_facts(p, perm_acc(x / 2, i + 1), 0);
    }
}

/// Scatters the bits of the 32-bit word `x` as `ICE_PBOX` directs.
pub fn ice_perm32(x: u64) -> (r: u64)
    requires
        x <= 0xFFFF_FFFF,
    ensures
        r == perm32_spec(x),
        r <= 0xFFFF_FFFF,
{
    let ghost x0 = x;
    let mut x = x;
    let mut res: u64 = 0;
    let mut i: usize = 0;
    proof {
        lemma_or_facts(perm_acc(x, 0), 0, 0);
        assert(0xFFFF_FFFFu64 >> 0u64 == 0xFFFF_FFFFu64) by (bit_vector);
    }
    while x != 0
        invariant
            i <= 32,
            x <= 0xFFFF_FFFFu64 >> (i as u64),
            res | perm_acc(x, i as int) == perm32_spec(x0),
            res <= 0xFFFF_FFFF,
        decreases x,
    {
        proof { lemma_perm_step(x, i as u64); }
        let ghost p: u64 = if x % 2 == 1 { ICE_PBOX[i as int] } else { 0 };
        proof { lemma_or_facts(res, p, perm_acc(x / 2, i + 1)); }
        if x & 1 == 1 {
            res |= ICE_PBOX[i];
        }
        proof { lemma_or_facts(res, p, 0); }
        i += 1;
        x >>= 1;
    }
    proof { lemma_or_facts(res, 0, 0); }
    res
}

} // verus!
