//! The cipher instance: round function, block operations and the bulk codec.
use vstd::prelude::*;
use crate::sbox::{init_sbox, is_sbox, sbox_spec, lemma_sbox_bound};
use crate::schedule::{fill_schedule, is_subkey, key_schedule};

verus! {

/// Why a cipher operation refused its input.
#[derive(Debug, Clone, Copy, PartialEq, Eq, Structural)]
pub enum IceError {
    /// The key is not as long as the instance's mode asks.
    InvalidKeyLength,
    /// A single-block operation was given other than eight bytes.
    InvalidBlockLength,
}

/// What a cipher instance is: its key-size level, its number of rounds and
/// its subkeys, three words each.
pub struct IceModel {
    pub size: nat,
    pub rounds: nat,
    pub schedule: Seq<Seq<u64>>,
}

/// An ICE cipher instance.
///
/// Before a key is set every subkey is zero: the instance then encrypts and
/// decrypts consistently, but without any secrecy.
pub struct IceKey {
    size: usize,
    rounds: usize,
    ice_sbox: Vec<[u64; 4]>,
    keysched: Vec<[u64; 3]>,
}

/// The number of key bytes that an instance of this size and round count takes.
pub open spec fn key_len(m: IceModel) -> nat {
    if m.rounds == 8 { 16 } else { 8 * m.size }
}

/// The two 20-bit values that the round function draws from the half block `p`.
pub open spec fn expand(p: u64) -> (u64, u64) {
    let tl = ((p >> 16u64) & 0x3FF) | (((p >> 14u64) | (p << 18u64)) & 0xFFC00);
    let tr = (p & 0x3FF) | ((p << 2u64) & 0xFFC00);
    (tl, tr)
}

/// The round function on the half block `p` and the subkey `sk`: `sk[2]`
/// selects which bits of the two expanded values trade places, `sk[0]` and
/// `sk[1]` are XORed in, and the four ten-bit pieces pick one S-box entry each.
pub open spec fn ice_f_spec(p: u64, sk: Seq<u64>) -> u64 {
    let (tl, tr) = expand(p);
    let sw = sk[2] & (tl ^ tr);
    let al = (sw ^ tl) ^ sk[0];
    let ar = (sw ^ tr) ^ sk[1];
    sbox_spec((al >> 10u64) as int, 0) | sbox_spec((al & 0x3FF) as int, 1) | sbox_spec(
        (ar >> 10u64) as int,
        2,
    ) | sbox_spec((ar & 0x3FF) as int, 3)
}

/// The halves after the first `m` pairs of encryption rounds.
pub open spec fn enc_upto(ks: Seq<Seq<u64>>, l: u64, r: u64, m: nat) -> (u64, u64)
    decreases m,
{
    if m == 0 {
        (l, r)
    } else {
        let prev = enc_upto(ks, l, r, (m - 1) as nat);
        let l1 = prev.0 ^ ice_f_spec(prev.1, ks[2 * m - 2]);
        let r1 = prev.1 ^ ice_f_spec(l1, ks[2 * m - 1]);
        (l1, r1)
    }
}

/// The halves after the decryption rounds that run down from subkey `2m - 1`.
pub open spec fn dec_from(ks: Seq<Seq<u64>>, l: u64, r: u64, m: nat) -> (u64, u64)
    decreases m,
{
    if m == 0 {
        (l, r)
    } else {
        let l1 = l ^ ice_f_spec(r, ks[2 * m - 1]);
        let r1 = r ^ ice_f_spec(l1, ks[2 * m - 2]);
        dec_from(ks, l1, r1, (m - 1) as nat)
    }
}

/// The big-endian 32-bit word of bytes `p..p + 4`.
pub open spec fn be32(b: Seq<u8>, p: int) -> u64 {
    ((b[p] as u64) << 24u64) | ((b[p + 1] as u64) << 16u64) | ((b[p + 2] as u64) << 8u64) | (b[p + 3] as u64)
}

/// The four big-endian bytes of the low 32 bits of `w`.
pub open spec fn word_bytes(w: u64) -> Seq<u8> {
    Seq::new(4, |x: int| ((w >> ((24 - 8 * x) as u64)) & 0xFF) as u8)
}

/// The encryption of the eight-byte block `b`: the output holds the right
/// half first.
pub open spec fn encrypt_block_spec(ks: Seq<Seq<u64>>, b: Seq<u8>) -> Seq<u8> {
    let h = enc_upto(ks, be32(b, 0), be32(b, 4), ks.len() / 2);
    word_bytes(h.1) + word_bytes(h.0)
}

/// The decryption of the eight-byte block `b`.
pub open spec fn decrypt_block_spec(ks: Seq<Seq<u64>>, b: Seq<u8>) -> Seq<u8> {
    let h = dec_from(ks, be32(b, 0), be32(b, 4), ks.len() / 2);
    word_bytes(h.1) + word_bytes(h.0)
}

/// `b` followed by zero bytes up to the next multiple of eight; a length that
/// is already a multiple of eight still gains a whole zero block.
pub open spec fn padded(b: Seq<u8>) -> Seq<u8> {
    b + Seq::new((8 - b.len() % 8) as nat, |i: int| 0u8)
}

/// The first `n` eight-byte blocks of `data`, each encrypted, in order.
pub open spec fn encrypt_blocks(ks: Seq<Seq<u64>>, data: Seq<u8>, n: nat) -> Seq<u8>
    decreases n,
{
    if n == 0 {
        seq![]
    } else {
        encrypt_blocks(ks, data, (n - 1) as nat) + encrypt_block_spec(
            ks,
            data.subrange(8 * n - 8, 8 * n as int),
        )
    }
}

/// The first `n` eight-byte blocks of `data`, each decrypted, in order.
pub open spec fn decrypt_blocks(ks: Seq<Seq<u64>>, data: Seq<u8>, n: nat) -> Seq<u8>
    decreases n,
{
    if n == 0 {
        seq![]
    } else {
        decrypt_blocks(ks, data, (n - 1) as nat) + decrypt_block_spec(
            ks,
            data.subrange(8 * n - 8, 8 * n as int),
        )
    }
}

/// The bulk encryption of `b`: padded, then encrypted block by block.
pub open spec fn encrypt_all_spec(ks: Seq<Seq<u64>>, b: Seq<u8>) -> Seq<u8> {
    encrypt_blocks(ks, padded(b), padded(b).len() / 8)
}

/// The bulk decryption of `b`: padded, then decrypted block by block.
pub open spec fn decrypt_all_spec(ks: Seq<Seq<u64>>, b: Seq<u8>) -> Seq<u8> {
    decrypt_blocks(ks, padded(b), padded(b).len() / 8)
}

impl View for IceKey {
    type V = IceModel;

    closed spec fn view(&self) -> IceModel {
        IceModel {
            size: self.size as nat,
            rounds: self.rounds as nat,
            schedule: self.keysched@.map_values(|k: [u64; 3]| k@),
        }
    }
}

impl IceKey {
    /// The instance is well formed: its mode is consistent, its table is the
    /// S-box, and it holds one subkey of three 20-bit words per round.
    pub closed spec fn wf(&self) -> bool {
        &&& (self.rounds == 8 && self.size == 1) || (self.size >= 1 && self.rounds == 16 * self.size)
        &&& is_sbox(self.ice_sbox@)
        &&& self.keysched@.len() == self.rounds
        &&& forall|t: int| 0 <= t < self.rounds ==> is_subkey(#[trigger] self.keysched@[t]@)
    }

    /// Creates an instance of key-size level `length`. Level zero selects the
    /// thin mode of eight rounds and 16-byte keys; level `n > 0` gives `16n`
    /// rounds and `8n`-byte keys. Every subkey starts at zero.
    pub fn new(length: usize) -> (ice: Self)
        requires
            length <= usize::MAX / 16,
        ensures
            ice.wf(),
            ice@.size == if length < 1 { 1 } else { length },
            ice@.rounds == if length < 1 { 8 } else { 16 * length },
            ice@.schedule == Seq::new(ice@.rounds, |t: int| seq![0u64, 0u64, 0u64]),
    {
        let size: usize;
        let rounds: usize;

        if length < 1 {
            size = 1;
            rounds = 8;
        } else {
            size = length;
            rounds = length * 16;
        }

        let mut keysched: Vec<[u64; 3]> = Vec::with_capacity(rounds);
        let mut i: usize = 0;
        while i < rounds
            invariant
                i <= rounds,
                keysched@.len() == i,
                forall|t: int| 0 <= t < i ==> #[trigger] keysched@[t]@ == seq![0u64, 0u64, 0u64],
            decreases rounds - i,
        {
            let zero: [u64; 3] = [0; 3];
            assert(zero@ =~= seq![0u64, 0u64, 0u64]);
            keysched.push(zero);
            i += 1;
        }

        let ice = IceKey { size, rounds, ice_sbox: init_sbox(), keysched };
        proof {
            assert forall|t: int| 0 <= t < rounds implies is_subkey(#[trigger] ice.keysched@[t]@) by {
                assert(ice.keysched@[t]@ == seq![0u64, 0u64, 0u64]);
            }
            assert(ice@.schedule =~= Seq::new(ice@.rounds, |t: int| seq![0u64, 0u64, 0u64]));
        }
        ice
    }

    /// Sets the key, replacing every subkey. The key must be 16 bytes long in
    /// thin mode and `8 * size` bytes long otherwise; on any other length the
    /// instance is left as it was.
    pub fn set(&mut self, key: Vec<u8>) -> (r: Result<(), IceError>)
        requires
            old(self).wf(),
        ensures
            final(self).wf(),
            final(self)@.size == old(self)@.size,
            final(self)@.rounds == old(self)@.rounds,
            r is Ok <==> key@.len() == key_len(old(self)@),
            r is Ok ==> final(self)@.schedule == key_schedule(key@, old(self)@.size, old(self)@.rounds),
            r is Err ==> r == Err::<(), IceError>(IceError::InvalidKeyLength) && final(self)@ == old(self)@,
    {
        let need: usize = if self.rounds == 8 { 16 } else { self.size * 8 };
        if key.len() != need {
            return Err(IceError::InvalidKeyLength);
        }
        fill_schedule(&mut self.keysched, &key, self.size, self.rounds);
        proof {
            assert(self@.schedule =~= key_schedule(key@, self@.size, self@.rounds));
        }
        Ok(())
    }

    /// The number of rounds.
    pub fn rounds(&self) -> (r: usize)
        ensures
            r == self@.rounds,
    {
        self.rounds
    }

    /// The key-size level: one in thin mode.
    pub fn size(&self) -> (r: usize)
        ensures
            r == self@.size,
    {
        self.size
    }

    /// The round function on the half block `p` with subkey `sk`.
    fn ice_f(&self, p: u64, sk: [u64; 3]) -> (r: u64)
        requires
            self.wf(),
            is_subkey(sk@),
        ensures
            r == ice_f_spec(p, sk@),
    {
        let tl: u64 = ((p >> 16) & 0x3FF) | (((p >> 14) | (p << 18)) & 0xFFC00);
        let tr: u64 = (p & 0x3FF) | ((p << 2) & 0xFFC00);
        let mut al: u64;
        let mut ar: u64;

        al = sk[2] & (tl ^ tr);
        ar = al ^ tr;
        al ^= tl;

        al ^= sk[0];
        ar ^= sk[1];

        proof {
            lemma_f_indices(p, tl, tr, sk[0], sk[1], sk[2]);
        }
        self.ice_sbox[(al >> 10) as usize][0] | self.ice_sbox[(al & 0x3FF) as usize][1]
            | self.ice_sbox[(ar >> 10) as usize][2] | self.ice_sbox[(ar & 0x3FF) as usize][3]
    }

    /// Appends the encryption of bytes `p..p + 8` of `b` to `out`.
    fn encrypt_into(&self, b: &Vec<u8>, p: usize, out: &mut Vec<u8>)
        requires
            self.wf(),
            p + 8 <= b@.len() <= usize::MAX,
        ensures
            final(out)@ == old(out)@ + encrypt_block_spec(self@.schedule, b@.subrange(p as int, p + 8)),
    {
        let ghost blk = b@.subrange(p as int, p + 8);
        let l = pack_word(b, p);
        let r = pack_word(b, p + 4);
        assert(be32(blk, 0) == l && be32(blk, 4) == r);
        let h = self.encrypt_words(l, r);
        proof {
            assert(self@.schedule.len() == self@.rounds);
        }
        push_word(out, h.1);
        push_word(out, h.0);
        assert(out@ =~= old(out)@ + encrypt_block_spec(self@.schedule, blk));
    }

    /// Appends the decryption of bytes `p..p + 8` of `b` to `out`.
    fn decrypt_into(&self, b: &Vec<u8>, p: usize, out: &mut Vec<u8>)
        requires
            self.wf(),
            p + 8 <= b@.len() <= usize::MAX,
        ensures
            final(out)@ == old(out)@ + decrypt_block_spec(self@.schedule, b@.subrange(p as int, p + 8)),
    {
        let ghost blk = b@.subrange(p as int, p + 8);
        let l = pack_word(b, p);
        let r = pack_word(b, p + 4);
        assert(be32(blk, 0) == l && be32(blk, 4) == r);
        let h = self.decrypt_words(l, r);
        proof {
            assert(self@.schedule.len() == self@.rounds);
        }
        push_word(out, h.1);
        push_word(out, h.0);
        assert(out@ =~= old(out)@ + decrypt_block_spec(self@.schedule, blk));
    }

    /// Encrypts one eight-byte block.
    pub fn encrypt(&self, ptext: Vec<u8>) -> (r: Result<Vec<u8>, IceError>)
        requires
            self.wf(),
        ensures
            ptext@.len() == 8 ==> r is Ok && r->Ok_0@ == encrypt_block_spec(self@.schedule, ptext@),
            ptext@.len() != 8 ==> r == Err::<Vec<u8>, IceError>(IceError::InvalidBlockLength),
    {
        if ptext.len() != 8 {
            return Err(IceError::InvalidBlockLength);
        }
        let mut ctext: Vec<u8> = Vec::new();
        self.encrypt_into(&ptext, 0, &mut ctext);
        assert(ptext@.subrange(0, 8) =~= ptext@);
        assert(ctext@ =~= encrypt_block_spec(self@.schedule, ptext@));
        Ok(ctext)
    }

    /// Decrypts one eight-byte block.
    pub fn decrypt(&self, ctext: Vec<u8>) -> (r: Result<Vec<u8>, IceError>)
        requires
            self.wf(),
        ensures
            ctext@.len() == 8 ==> r is Ok && r->Ok_0@ == decrypt_block_spec(self@.schedule, ctext@),
            ctext@.len() != 8 ==> r == Err::<Vec<u8>, IceError>(IceError::InvalidBlockLength),
    {
        if ctext.len() != 8 {
            return Err(IceError::InvalidBlockLength);
        }
        let mut ptext: Vec<u8> = Vec::new();
        self.decrypt_into(&ctext, 0, &mut ptext);
        assert(ctext@.subrange(0, 8) =~= ctext@);
        assert(ptext@ =~= decrypt_block_spec(self@.schedule, ctext@));
        Ok(ptext)
    }

    /// Encrypts a buffer of any length: it is padded with zero bytes to the
    /// next multiple of eight (a whole zero block when it is one already) and
    /// encrypted block by block.
    pub fn encrypt_all(&self, ptext: Vec<u8>) -> (ctext: Vec<u8>)
        requires
            self.wf(),
            ptext@.len() + 8 <= usize::MAX,
        ensures
            ctext@ == encrypt_all_spec(self@.schedule, ptext@),
            ctext@.len() == ptext@.len() + 8 - ptext@.len() % 8,
    {
        let ghost p0 = ptext@;
        let mut ptext = ptext;
        let mut ctext: Vec<u8> = Vec::new();

        let index: usize = 8 - (ptext.len() % 8);
        let mut k: usize = 0;
        while k < index
            invariant
                k <= index,
                index == 8 - p0.len() % 8,
                p0.len() + 8 <= usize::MAX,
                ptext@ == p0 + Seq::new(k as nat, |i: int| 0u8),
            decreases index - k,
        {
            ptext.push(0);
            k += 1;
            assert(ptext@ =~= p0 + Seq::new(k as nat, |i: int| 0u8));
        }
        assert(ptext@ =~= padded(p0));

        let n: usize = ptext.len() / 8;
        let mut blk: usize = 0;
        while blk < n
            invariant
                self.wf(),
                ptext@ == padded(p0),
                n == ptext@.len() / 8,
                ptext@.len() <= usize::MAX,
                blk <= n,
                ctext@ == encrypt_blocks(self@.schedule, ptext@, blk as nat),
                ctext@.len() == 8 * blk,
            decreases n - blk,
        {
            proof {
                lemma_next_block(blk as int, n as int, ptext@.len() as int);
            }
            self.encrypt_into(&ptext, blk * 8, &mut ctext);
            blk += 1;
        }
        ctext
    }

    /// Decrypts a buffer of any length, padded as `encrypt_all` pads.
    pub fn decrypt_all(&self, ctext: Vec<u8>) -> (ptext: Vec<u8>)
        requires
            self.wf(),
            ctext@.len() + 8 <= usize::MAX,
        ensures
            ptext@ == decrypt_all_spec(self@.schedule, ctext@),
            ptext@.len() == ctext@.len() + 8 - ctext@.len() % 8,
    {
        let ghost c0 = ctext@;
        let mut ctext = ctext;
        let mut ptext: Vec<u8> = Vec::new();

        let index: usize = 8 - (ctext.len() % 8);
        let mut k: usize = 0;
        while k < index
            invariant
                k <= index,
                index == 8 - c0.len() % 8,
                c0.len() + 8 <= usize::MAX,
                ctext@ == c0 + Seq::new(k as nat, |i: int| 0u8),
            decreases index - k,
        {
            ctext.push(0);
            k += 1;
            assert(ctext@ =~= c0 + Seq::new(k as nat, |i: int| 0u8));
        }
        assert(ctext@ =~= padded(c0));

        let n: usize = ctext.len() / 8;
        let mut blk: usize = 0;
        while blk < n
            invariant
                self.wf(),
                ctext@ == padded(c0),
                n == ctext@.len() / 8,
                ctext@.len() <= usize::MAX,
                blk <= n,
                ptext@ == decrypt_blocks(self@.schedule, ctext@, blk as nat),
                ptext@.len() == 8 * blk,
            decreases n - blk,
        {
            proof {
                lemma_next_block(blk as int, n as int, ctext@.len() as int);
            }
            self.decrypt_into(&ctext, blk * 8, &mut ptext);
            blk += 1;
        }
        ptext
    }

    /// Runs the encryption rounds on the halves `l` and `r`.
    fn encrypt_words(&self, l: u64, r: u64) -> (h: (u64, u64))
        requires
            self.wf(),
        ensures
            h == enc_upto(self@.schedule, l, r, self@.rounds / 2),
    {
        let ghost (l0, r0) = (l, r);
        let ghost ks = self@.schedule;
        let mut l = l;
        let mut r = r;
        let mut i: usize = 0;
        while i < self.rounds
            invariant
                self.wf(),
                ks == self@.schedule,
                i <= self.rounds,
                i % 2 == 0,
                (l, r) == enc_upto(ks, l0, r0, (i / 2) as nat),
            decreases self.rounds - i,
        {
            l ^= self.ice_f(r, self.keysched[i]);
            r ^= self.ice_f(l, self.keysched[i + 1]);
            proof {
                assert((i + 2) / 2 == i / 2 + 1);
            }
            i += 2;
        }
        (l, r)
    }

    /// Runs the decryption rounds on the halves `l` and `r`.
    fn decrypt_words(&self, l: u64, r: u64) -> (h: (u64, u64))
        requires
            self.wf(),
        ensures
            h == dec_from(self@.schedule, l, r, self@.rounds / 2),
    {
        let ghost ks = self@.schedule;
        let ghost goal = dec_from(ks, l, r, self@.rounds / 2);
        let mut l = l;
        let mut r = r;
        let mut i: usize = self.rounds;
        while i > 0
            invariant
                self.wf(),
                ks == self@.schedule,
                i <= self.rounds,
                i % 2 == 0,
                dec_from(ks, l, r, (i / 2) as nat) == goal,
            decreases i,
        {
            l ^= self.ice_f(r, self.keysched[i - 1]);
            r ^= self.ice_f(l, self.keysched[i - 2]);
            proof {
                assert((i - 2) / 2 == i / 2 - 1);
            }
            i -= 2;
        }
        (l, r)
    }
}

/// The big-endian word of bytes `p..p + 4` of `b`.
fn pack_word(b: &Vec<u8>, p: usize) -> (w: u64)
    requires
        p + 4 <= b@.len() <= usize::MAX,
    ensures
        w == be32(b@, p as int),
{
    (b[p] as u64) << 24 | (b[p + 1] as u64) << 16 | (b[p + 2] as u64) << 8 | b[p + 3] as u64
}

/// Appends the four big-endian bytes of the low half of `w`.
fn push_word(out: &mut Vec<u8>, w: u64)
    ensures
        final(out)@ == old(out)@ + word_bytes(w),
{
    let ghost o0 = out@;
    let mut j: usize = 0;
    while j < 4
        invariant
            j <= 4,
            out@ == o0 + word_bytes(w).take(j as int),
        decreases 4 - j,
    {
        out.push(((w >> ((24 - 8 * j) as u64)) & 0xFF) as u8);
        proof {
            assert(word_bytes(w).take(j + 1) =~= word_bytes(w).take(j as int).push(
                ((w >> ((24 - 8 * j) as u64)) & 0xFF) as u8,
            ));
        }
        j += 1;
    }
    assert(word_bytes(w).take(4) =~= word_bytes(w));
}

proof fn lemma_next_block(blk: int, n: int, len: int)
    requires
        0 <= blk < n,
        n == len / 8,
    ensures
        blk * 8 + 8 <= len,
        8 * (blk + 1) - 8 == blk * 8,
{
}

proof fn lemma_f_indices(p: u64, tl: u64, tr: u64, s0: u64, s1: u64, s2: u64)
    by (bit_vector)
    requires
        tl == ((p >> 16u64) & 0x3FFu64) | (((p >> 14u64) | (p << 18u64)) & 0xFFC00u64),
        tr == (p & 0x3FFu64) | ((p << 2u64) & 0xFFC00u64),
        s0 < 0x10_0000,
        s1 < 0x10_0000,
        s2 < 0x10_0000,
    ensures
        ((((s2 & (tl ^ tr)) ^ tl) ^ s0) >> 10u64) < 1024,
        ((((s2 & (tl ^ tr)) ^ tr) ^ s1) >> 10u64) < 1024,
        ((((s2 & (tl ^ tr)) ^ tl) ^ s0) & 0x3FFu64) < 1024,
        ((((s2 & (tl ^ tr)) ^ tr) ^ s1) & 0x3FFu64) < 1024,
{
}

} // verus!
