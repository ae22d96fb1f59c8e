//! The key-independent substitution table: 1024 rows of four masks.
use vstd::prelude::*;
use crate::galois::{gf_exp7, gf_exp7_spec, lemma_gf_exp7_byte};
use crate::permute::{ice_perm32, perm32_spec, lemma_perm_acc_bound};

verus! {

/// The reduction modulus of each S-box (outer index) for each row set.
pub const ICE_SMOD: [[u32; 4]; 4] = [
    [333, 313, 505, 369],
    [379, 375, 319, 391],
    [361, 445, 451, 397],
    [397, 425, 395, 505],
];

/// The value XORed into the column of each S-box (outer index) for each row set.
pub const ICE_SXOR: [[u32; 4]; 4] = [
    [0x83, 0x85, 0x9b, 0xcd],
    [0xcc, 0xa7, 0xad, 0x41],
    [0x4b, 0x2e, 0xd4, 0x33],
    [0xea, 0xcb, 0x2e, 0x04],
];

/// Number of rows of the table.
pub const SBOX_ROWS: usize = 1024;

/// The column of row `i`: its bits one to eight.
pub open spec fn sbox_col(i: u32) -> u32 {
    (i >> 1u32) & 0xFF
}

/// Which of the four constant sets row `i` uses: its bit zero and its bit nine.
pub open spec fn sbox_row(i: u32) -> u32 {
    (i & 1u32) | ((i & 0x200u32) >> 8u32)
}

/// Entry `c` of row `i`: the seventh power of the column, XORed and reduced
/// with S-box `c`'s constants, placed in byte `3 - c` and transposed.
pub open spec fn sbox_spec(i: int, c: int) -> u64 {
    let col = sbox_col(i as u32);
    let row = sbox_row(i as u32) as int;
    perm32_spec(
        gf_exp7_spec(col ^ ICE_SXOR[c][row], ICE_SMOD[c][row]) << ((24 - 8 * c) as u64),
    )
}

/// The table as it must stand in every cipher instance.
pub open spec fn is_sbox(t: Seq<[u64; 4]>) -> bool {
    &&& t.len() == SBOX_ROWS
    &&& forall|i: int, c: int| 0 <= i < SBOX_ROWS && 0 <= c < 4 ==> #[trigger] t[i][c] == sbox_spec(i, c)
}

proof fn lemma_index_parts(i: u32)
    by (bit_vector)
    ensures
        sbox_col(i) < 256,
        sbox_row(i) < 4,
{
}

proof fn lemma_byte_facts(a: u32, b: u32, x: u64)
    by (bit_vector)
    requires
        a < 256,
        b < 256,
        x < 256,
    ensures
        a ^ b < 256,
        x << 24u64 <= 0xFFFF_FFFFu64,
        x << 16u64 <= 0xFFFF_FFFFu64,
        x << 8u64 <= 0xFFFF_FFFFu64,
        x << 0u64 <= 0xFFFF_FFFFu64,
        0xFFFF_FFFFu64 >> 0u64 == 0xFFFF_FFFFu64,
{
}

/// Every entry of the table is a 32-bit word.
pub proof fn lemma_sbox_bound(i: int, c: int)
    requires
        0 <= c < 4,
    ensures
        sbox_spec(i, c) <= 0xFFFF_FFFF,
{
    let col = sbox_col(i as u32);
    let row = sbox_row(i as u32) as int;
    lemma_index_parts(i as u32);
    lemma_byte_facts(col, ICE_SXOR[c][row], 0);
    let e = gf_exp7_spec(col ^ ICE_SXOR[c][row], ICE_SMOD[c][row]);
    lemma_gf_exp7_byte(col ^ ICE_SXOR[c][row], ICE_SMOD[c][row]);
    lemma_byte_facts(0, 0, e);
    lemma_perm_acc_bound(e << ((24 - 8 * c) as u64), 0);
}

/// One entry of row `i`, for S-box `c`.
fn sbox_entry(i: u32, c: usize, shift: u64) -> (r: u64)
    requires
        i < 1024,
        c < 4,
        shift == 24 - 8 * c,
    ensures
        r == sbox_spec(i as int, c as int),
{
    let col: u32 = (i >> 1) & 0xFF;
    let row: usize = ((i & 0x1) | ((i & 0x200) >> 8)) as usize;
    proof {
        lemma_index_parts(i);
        lemma_byte_facts(col, ICE_SXOR[c as int][row as int], 0);
    }
    let x: u64 = gf_exp7(col ^ ICE_SXOR[c][row], ICE_SMOD[c][row]);
    proof { lemma_byte_facts(0, 0, x); }
    ice_perm32(x << shift)
}

/// Builds the substitution table.
pub fn init_sbox() -> (r: Vec<[u64; 4]>)
    ensures
        is_sbox(r@),
{
    let mut sbox: Vec<[u64; 4]> = Vec::with_capacity(SBOX_ROWS);
    let mut i: u32 = 0;
    while i < 1024
        invariant
            i <= 1024,
            sbox@.len() == i,
            forall|j: int, c: int| 0 <= j < i && 0 <= c < 4 ==> #[trigger] sbox@[j][c] == sbox_spec(j, c),
        decreases 1024 - i,
    {
        let row: [u64; 4] = [
            sbox_entry(i, 0, 24),
            sbox_entry(i, 1, 16),
            sbox_entry(i, 2, 8),
            sbox_entry(i, 3, 0),
        ];
        sbox.push(row);
        i += 1;
    }
    sbox
}

} // verus!
