//! What holds of every instance: decryption undoes encryption, and the
//! operations depend on the instance's model and the input alone.
use vstd::prelude::*;
use crate::ice::{
    IceKey, be32, dec_from, expand, decrypt_all_spec, decrypt_block_spec, enc_upto, encrypt_all_spec,
    encrypt_block_spec, ice_f_spec, word_bytes,
};
use crate::sbox::{lemma_sbox_bound, sbox_spec};

verus! {

proof fn lemma_word_facts(a: u64, b: u64, c: u64, d: u64)
    by (bit_vector)
    ensures
        (a ^ b) ^ b == a,
        a <= 0xFFFF_FFFFu64 && b <= 0xFFFF_FFFFu64 ==> a ^ b <= 0xFFFF_FFFFu64,
        a <= 0xFFFF_FFFFu64 && b <= 0xFFFF_FFFFu64 && c <= 0xFFFF_FFFFu64 && d <= 0xFFFF_FFFFu64
            ==> a | b | c | d <= 0xFFFF_FFFFu64,
{
}

proof fn lemma_word_round_trip(x: u64)
    by (bit_vector)
    requires
        x <= 0xFFFF_FFFFu64,
    ensures
        ((((x >> 24u64) & 0xFFu64) as u8 as u64) << 24u64) | ((((x >> 16u64) & 0xFFu64) as u8 as u64)
            << 16u64) | ((((x >> 8u64) & 0xFFu64) as u8 as u64) << 8u64) | (((x >> 0u64)
            & 0xFFu64) as u8 as u64) == x,
{
}

proof fn lemma_bytes_round_trip(b0: u8, b1: u8, b2: u8, b3: u8, x: u64)
    by (bit_vector)
    requires
        x == ((b0 as u64) << 24u64) | ((b1 as u64) << 16u64) | ((b2 as u64) << 8u64) | (b3 as u64),
    ensures
        x <= 0xFFFF_FFFFu64,
        ((x >> 24u64) & 0xFFu64) as u8 == b0,
        ((x >> 16u64) & 0xFFu64) as u8 == b1,
        ((x >> 8u64) & 0xFFu64) as u8 == b2,
        ((x >> 0u64) & 0xFFu64) as u8 == b3,
{
}

/// The round function yields a 32-bit word.
proof fn lemma_f_bound(p: u64, sk: Seq<u64>)
    ensures
        ice_f_spec(p, sk) <= 0xFFFF_FFFF,
{
    let tl = expand(p).0;
    let tr = expand(p).1;
    let sw = sk[2] & (tl ^ tr);
    let al = (sw ^ tl) ^ sk[0];
    let ar = (sw ^ tr) ^ sk[1];
    lemma_sbox_bound((al >> 10u64) as int, 0);
    lemma_sbox_bound((al & 0x3FF) as int, 1);
    lemma_sbox_bound((ar >> 10u64) as int, 2);
    lemma_sbox_bound((ar & 0x3FF) as int, 3);
    lemma_word_facts(
        sbox_spec((al >> 10u64) as int, 0),
        sbox_spec((al & 0x3FF) as int, 1),
        sbox_spec((ar >> 10u64) as int, 2),
        sbox_spec((ar & 0x3FF) as int, 3),
    );
}

/// Encryption rounds keep both halves 32-bit words.
proof fn lemma_enc_bound(ks: Seq<Seq<u64>>, l: u64, r: u64, m: nat)
    requires
        l <= 0xFFFF_FFFF,
        r <= 0xFFFF_FFFF,
    ensures
        enc_upto(ks, l, r, m).0 <= 0xFFFF_FFFF,
        enc_upto(ks, l, r, m).1 <= 0xFFFF_FFFF,
    decreases m,
{
    if m > 0 {
        lemma_enc_bound(ks, l, r, (m - 1) as nat);
        let prev = enc_upto(ks, l, r, (m - 1) as nat);
        let f1 = ice_f_spec(prev.1, ks[2 * m - 2]);
        lemma_f_bound(prev.1, ks[2 * m - 2]);
        lemma_word_facts(prev.0, f1, 0, 0);
        let l1 = prev.0 ^ f1;
        let f2 = ice_f_spec(l1, ks[2 * m - 1]);
        lemma_f_bound(l1, ks[2 * m - 1]);
        lemma_word_facts(prev.1, f2, 0, 0);
    }
}

/// The decryption rounds, run on the swapped output of `m` pairs of
/// encryption rounds, give back the swapped input.
pub proof fn lemma_feistel_inverse(ks: Seq<Seq<u64>>, l: u64, r: u64, m: nat)
    ensures
        dec_from(ks, enc_upto(ks, l, r, m).1, enc_upto(ks, l, r, m).0, m) == (r, l),
    decreases m,
{
    if m > 0 {
        let prev = enc_upto(ks, l, r, (m - 1) as nat);
        let h = enc_upto(ks, l, r, m);
        lemma_word_facts(prev.1, ice_f_spec(h.0, ks[2 * m - 1]), 0, 0);
        lemma_word_facts(prev.0, ice_f_spec(prev.1, ks[2 * m - 2]), 0, 0);
        lemma_feistel_inverse(ks, l, r, (m - 1) as nat);
    }
}

/// Decrypting the encryption of an eight-byte block gives the block back,
/// whatever the instance's subkeys.
pub proof fn lemma_round_trip(ice: IceKey, b: Seq<u8>)
    requires
        b.len() == 8,
    ensures
        decrypt_block_spec(ice@.schedule, encrypt_block_spec(ice@.schedule, b)) == b,
{
    let ks = ice@.schedule;
    let m = ks.len() / 2;
    let l = be32(b, 0);
    let r = be32(b, 4);
    lemma_bytes_round_trip(b[0], b[1], b[2], b[3], l);
    lemma_bytes_round_trip(b[4], b[5], b[6], b[7], r);
    lemma_enc_bound(ks, l, r, m);
    let h = enc_upto(ks, l, r, m);
    let c = encrypt_block_spec(ks, b);
    lemma_word_round_trip(h.1);
    lemma_word_round_trip(h.0);
    assert(be32(c, 0) == h.1);
    assert(be32(c, 4) == h.0);
    lemma_feistel_inverse(ks, l, r, m);
    assert(decrypt_block_spec(ks, c) =~= b);
}

/// Two instances with the same model encrypt and decrypt every input alike,
/// block by block and in bulk.
pub proof fn lemma_deterministic(a: IceKey, b: IceKey, x: Seq<u8>)
    requires
        a@ == b@,
    ensures
        encrypt_block_spec(a@.schedule, x) == encrypt_block_spec(b@.schedule, x),
        decrypt_block_spec(a@.schedule, x) == decrypt_block_spec(b@.schedule, x),
        encrypt_all_spec(a@.schedule, x) == encrypt_all_spec(b@.schedule, x),
        decrypt_all_spec(a@.schedule, x) == decrypt_all_spec(b@.schedule, x),
{
}

} // verus!
