//! The key schedule: subkeys drawn bit by bit from four rotating 16-bit registers.
use vstd::prelude::*;

verus! {

/// Which register each of the sixteen schedule rounds starts from.
pub const ICE_KEYROT: [u32; 16] = [0, 1, 2, 3, 2, 1, 3, 0, 1, 3, 2, 0, 3, 1, 0, 2];

/// A 16-bit register shifted right by one, with the complement of the bit
/// that left it entering at the top.
pub open spec fn rotate_inverted(w: u16) -> u16 {
    (w >> 1u16) | (((w & 1u16) ^ 1u16) << 15u16)
}

/// Step `t` of the draw of one subkey (`t` in `0..60`): the low bit of register
/// `(kr + t % 4) % 4` is shifted into word `(t / 4) % 3` and the register turns.
pub open spec fn draw_step(kb: Seq<u16>, sk: Seq<u64>, kr: int, t: int) -> (Seq<u16>, Seq<u64>) {
    let idx = (kr + t % 4) % 4;
    let s = (t / 4) % 3;
    let w = kb[idx];
    (kb.update(idx, rotate_inverted(w)), sk.update(s, (sk[s] << 1u64) | ((w & 1u16) as u64)))
}

/// The registers and the subkey after the first `t` steps of a draw that
/// starts from `kb` and register `kr`, with a zero subkey.
pub open spec fn draw_steps(kb: Seq<u16>, kr: int, t: nat) -> (Seq<u16>, Seq<u64>)
    decreases t,
{
    if t == 0 {
        (kb, seq![0u64, 0u64, 0u64])
    } else {
        let prev = draw_steps(kb, kr, (t - 1) as nat);
        draw_step(prev.0, prev.1, kr, t - 1)
    }
}

/// Steps in the draw of one subkey: fifteen times one bit of each register.
pub open spec fn draw_len() -> nat {
    60
}

/// The registers after the first `i` rounds of a pass that reads the
/// rotation table from offset `l`.
pub open spec fn pass_regs(kb: Seq<u16>, l: int, i: nat) -> Seq<u16>
    decreases i,
{
    if i == 0 {
        kb
    } else {
        let prev = pass_regs(kb, l, (i - 1) as nat);
        draw_steps(prev, ICE_KEYROT[i - 1 + l] as int, draw_len()).0
    }
}

/// The subkey of round `i` of a pass that reads the rotation table from offset `l`.
pub open spec fn pass_key(kb: Seq<u16>, l: int, i: nat) -> Seq<u64> {
    draw_steps(pass_regs(kb, l, i), ICE_KEYROT[i + l] as int, draw_len()).1
}

/// Bits that word `s` of a subkey holds once `k` bits of group `j` are in.
pub open spec fn word_bits(j: int, k: int, s: int) -> int {
    4 * ((j + 2 - s) / 3) + if s == j % 3 { k } else { 0 }
}

/// Every word of a subkey has at most twenty bits: an index pair of the S-boxes.
pub open spec fn is_subkey(sk: Seq<u64>) -> bool {
    &&& sk.len() == 3
    &&& forall|s: int| 0 <= s < 3 ==> #[trigger] sk[s] < 0x10_0000
}

proof fn lemma_shift_in(x: u64, bit: u64, b: u64)
    by (bit_vector)
    requires
        b < 20,
        bit <= 1,
        x < (1u64 << b),
    ensures
        ((x << 1u64) | bit) < (1u64 << vstd::prelude::add(b, 1u64)),
{
}

proof fn lemma_register_facts(w: u16, x: u32)
    by (bit_vector)
    requires
        x < 8,
    ensures
        (w & 1u16) <= 1,
        (x & 3u32) == x % 4,
        (1u64 << 0u64) == 1u64,
        (1u64 << 20u64) == 0x10_0000u64,
{
}

/// Draws one subkey from the registers `kb`, starting at register `kr`, and
/// turns the registers as it goes.
fn draw_subkey(kb: &mut [u16; 4], kr: u32) -> (sk: [u64; 3])
    requires
        kr < 4,
    ensures
        (final(kb)@, sk@) == draw_steps(old(kb)@, kr as int, draw_len()),
        is_subkey(sk@),
{
    let ghost kb0 = kb@;
    let mut subkey: [u64; 3] = [0; 3];
    proof {
        assert(subkey@ =~= seq![0u64, 0u64, 0u64]);
        lemma_register_facts(0, 0);
    }
    let mut j: usize = 0;
    while j < 15
        invariant
            j <= 15,
            kr < 4,
            (kb@, subkey@) == draw_steps(kb0, kr as int, (4 * j) as nat),
            forall|s: int| 0 <= s < 3 ==> #[trigger] subkey[s] < (1u64 << (word_bits(j as int, 0, s) as u64)),
        decreases 15 - j,
    {
        let curr_sk: usize = j % 3;
        let mut k: u32 = 0;
        while k < 4
            invariant
                j < 15,
                k <= 4,
                kr < 4,
                curr_sk == j % 3,
                (kb@, subkey@) == draw_steps(kb0, kr as int, (4 * j + k) as nat),
                forall|s: int| 0 <= s < 3 ==> #[trigger] subkey[s] < (1u64 << (word_bits(j as int, k as int, s) as u64)),
            decreases 4 - k,
        {
            proof { lemma_register_facts(0, (kr + k) as u32); }
            let idx: usize = ((kr + k) & 3) as usize;
            let curr_kb: u16 = kb[idx];
            proof { lemma_register_facts(curr_kb, (kr + k) as u32); }
            let bit: u16 = curr_kb & 1;
            proof {
                let b = word_bits(j as int, k as int, curr_sk as int);
                assert(0 <= b < 20);
                lemma_shift_in(subkey[curr_sk as int], bit as u64, b as u64);
            }
            subkey[curr_sk] = (subkey[curr_sk] << 1) | bit as u64;
            kb[idx] = (curr_kb >> 1) | ((bit ^ 1) << 15);
            proof {
                let t = 4 * j + k;
                assert(t % 4 == k && t / 4 == j);
                assert(kb@ =~= draw_step(draw_steps(kb0, kr as int, t as nat).0, draw_steps(kb0, kr as int, t as nat).1, kr as int, t as int).0);
                assert(subkey@ =~= draw_step(draw_steps(kb0, kr as int, t as nat).0, draw_steps(kb0, kr as int, t as nat).1, kr as int, t as int).1);
                assert forall|s: int| 0 <= s < 3 implies #[trigger] subkey[s] < (1u64 << (word_bits(j as int, k + 1, s) as u64)) by {
                    if s == curr_sk as int {
                        assert(word_bits(j as int, k + 1, s) == word_bits(j as int, k as int, s) + 1);
                    }
                }
            }
            k += 1;
        }
        proof {
            assert forall|s: int| 0 <= s < 3 implies word_bits(j + 1, 0, s) == word_bits(j as int, 4, s) by {}
        }
        j += 1;
    }
    proof {
        assert forall|s: int| 0 <= s < 3 implies word_bits(15, 0, s) == 20 by {}
    }
    subkey
}

/// Runs one pass of eight rounds over the registers `kb`, reading the rotation
/// table from offset `l`, and writes its subkeys to slots `n..n + 8`.
/// Returns the turned registers.
pub fn schedule_build(keysched: &mut Vec<[u64; 3]>, kb: [u16; 4], n: usize, l: usize) -> (r: [u16; 4])
    requires
        n + 8 <= old(keysched)@.len() <= usize::MAX,
        l <= 8,
    ensures
        final(keysched)@.len() == old(keysched)@.len(),
        r@ == pass_regs(kb@, l as int, 8),
        forall|t: int| n <= t < n + 8 ==> #[trigger] final(keysched)@[t]@ == pass_key(kb@, l as int, (t - n) as nat),
        forall|t: int| n <= t < n + 8 ==> is_subkey(#[trigger] final(keysched)@[t]@),
        forall|t: int| 0 <= t < old(keysched)@.len() && !(n <= t < n + 8) ==> #[trigger] final(keysched)@[t] == old(keysched)@[t],
{
    let ghost kb0 = kb@;
    let ghost ks0 = keysched@;
    let mut kb = kb;
    let mut i: usize = 0;
    while i < 8
        invariant
            i <= 8,
            l <= 8,
            n + 8 <= keysched@.len() <= usize::MAX,
            keysched@.len() == ks0.len(),
            kb@ == pass_regs(kb0, l as int, i as nat),
            forall|t: int| n <= t < n + i ==> #[trigger] keysched@[t]@ == pass_key(kb0, l as int, (t - n) as nat),
            forall|t: int| n <= t < n + i ==> is_subkey(#[trigger] keysched@[t]@),
            forall|t: int| 0 <= t < ks0.len() && !(n <= t < n + i) ==> #[trigger] keysched@[t] == ks0[t],
        decreases 8 - i,
    {
        let kr = ICE_KEYROT[i + l];
        let subkey = draw_subkey(&mut kb, kr);
        keysched[n + i] = subkey;
        i += 1;
    }
    kb
}

/// The register built from key bytes `p` and `p + 1`, the first one high.
pub open spec fn key_word(key: Seq<u8>, p: int) -> u16 {
    ((key[p] as u16) << 8u16) | (key[p + 1] as u16)
}

/// The four registers loaded from the eight key bytes of block `i`: the last
/// pair goes to register zero, the first pair to register three.
pub open spec fn block_regs(key: Seq<u8>, i: int) -> Seq<u16> {
    seq![key_word(key, 8 * i + 6), key_word(key, 8 * i + 4), key_word(key, 8 * i + 2), key_word(key, 8 * i)]
}

/// The whole schedule for `key`. With eight rounds it is one pass over the
/// first key block. Otherwise key block `i` fills slots `8i..8i + 8` with a
/// pass from its registers, and, continuing from the registers that pass
/// left, slots `rounds - 8 - 8i..rounds - 8i` with a pass that reads the
/// rotation table from offset eight.
pub open spec fn key_schedule(key: Seq<u8>, size: nat, rounds: nat) -> Seq<Seq<u64>> {
    Seq::new(
        rounds,
        |t: int|
            if rounds == 8 {
                pass_key(block_regs(key, 0), 0, t as nat)
            } else if t < 8 * size {
                pass_key(block_regs(key, t / 8), 0, (t % 8) as nat)
            } else {
                let q = rounds - 1 - t;
                pass_key(pass_regs(block_regs(key, q / 8), 0, 8), 8, (7 - q % 8) as nat)
            },
    )
}

/// Loads the register of key bytes `p` and `p + 1`.
fn load_word(key: &Vec<u8>, p: usize) -> (r: u16)
    requires
        p + 1 < key@.len() <= usize::MAX,
    ensures
        r == key_word(key@, p as int),
{
    ((key[p] as u16) << 8) | key[p + 1] as u16
}

/// Loads the registers of key block `i`.
fn load_block(key: &Vec<u8>, i: usize) -> (kb: [u16; 4])
    requires
        8 * i + 8 <= key@.len() <= usize::MAX,
    ensures
        kb@ == block_regs(key@, i as int),
{
    let mut kb: [u16; 4] = [0; 4];
    let mut j: usize = 0;
    while j < 4
        invariant
            j <= 4,
            8 * i + 8 <= key@.len() <= usize::MAX,
            forall|x: int| 4 - j <= x < 4 ==> #[trigger] kb@[x] == key_word(key@, 8 * i + 2 * (3 - x)),
        decreases 4 - j,
    {
        kb[3 - j] = load_word(key, i * 8 + j * 2);
        j += 1;
    }
    assert(kb@ =~= block_regs(key@, i as int));
    kb
}

/// Fills `keysched` with the schedule of `key` for an instance of `size`
/// key blocks and `rounds` rounds.
pub fn fill_schedule(keysched: &mut Vec<[u64; 3]>, key: &Vec<u8>, size: usize, rounds: usize)
    requires
        old(keysched)@.len() == rounds,
        (rounds == 8 && size == 1) || (size >= 1 && rounds == 16 * size),
        key@.len() == if rounds == 8 { 16 } else { 8 * size },
    ensures
        final(keysched)@.len() == rounds,
        forall|t: int| 0 <= t < rounds ==> #[trigger] final(keysched)@[t]@ == key_schedule(key@, size as nat, rounds as nat)[t],
        forall|t: int| 0 <= t < rounds ==> is_subkey(#[trigger] final(keysched)@[t]@),
{
    if rounds == 8 {
        let kb = load_block(key, 0);
        let _ = schedule_build(keysched, kb, 0, 0);
        return;
    }
    let ghost sched = key_schedule(key@, size as nat, rounds as nat);
    let mut i: usize = 0;
    while i < size
        invariant
            i <= size,
            size >= 1,
            rounds == 16 * size,
            key@.len() == 8 * size,
            keysched@.len() == rounds,
            sched == key_schedule(key@, size as nat, rounds as nat),
            forall|t: int| 0 <= t < 8 * i ==> #[trigger] keysched@[t]@ == sched[t],
            forall|t: int| rounds - 8 * i <= t < rounds ==> #[trigger] keysched@[t]@ == sched[t],
            forall|t: int| 0 <= t < 8 * i ==> is_subkey(#[trigger] keysched@[t]@),
            forall|t: int| rounds - 8 * i <= t < rounds ==> is_subkey(#[trigger] keysched@[t]@),
        decreases size - i,
    {
        let kb = load_block(key, i);
        let kb = schedule_build(keysched, kb, i * 8, 0);
        let _ = schedule_build(keysched, kb, rounds - 8 - i * 8, 8);
        proof {
            assert forall|t: int| 8 * i <= t < 8 * i + 8 implies #[trigger] keysched@[t]@ == sched[t] by {
                assert(t / 8 == i && t % 8 == t - 8 * i);
            }
            assert forall|t: int| rounds - 8 - 8 * i <= t < rounds - 8 * i implies #[trigger] keysched@[t]@ == sched[t] by {
                assert((rounds - 1 - t) / 8 == i && 7 - (rounds - 1 - t) % 8 == t - (rounds - 8 - 8 * i));
            }
        }
        i += 1;
    }
}

} // verus!
