//! QRC's modified DES.
use vstd::prelude::*;

use super::data::{
    IP, IP_INV, KEY_COMPRESSION, KEY_EXPANSION, KEY_PERMUTATION_TABLE, KEY_RND_SHIFTS, PBOX, SBOXES,
};
use super::int_helper::{
    make_u64, map_u32_bits, map_u64, spec_hi32, spec_lo32, spec_make_u64, spec_map_u32_bits,
    spec_map_u64, spec_swap_u64_side, swap_u64_side, u64_get_hi32, u64_get_lo32,
};
use crate::bytes::{read_u64_le, spec_le_u64, spec_u64_le_bytes, u64_to_le_bytes};

verus! {

/// Right shift of the expanded state that brings each S-box input to the low six bits.
pub const LARGE_STATE_SHIFTS: [u8; 8] = [26, 20, 14, 8, 58, 52, 46, 40];

pub open spec fn spec_des_ip(data: u64) -> u64 {
    spec_map_u64(data, IP@)
}

pub open spec fn spec_des_ip_inv(data: u64) -> u64 {
    spec_map_u64(data, IP_INV@)
}

/// The S-box input of round box `i`.
pub open spec fn sbox_input(state: u64, i: int) -> int {
    ((state >> LARGE_STATE_SHIFTS@[i]) & 0x3f) as int
}

/// The outputs of the first `k` S-boxes, four bits each, the first box highest.
pub open spec fn sbox_fold(state: u64, k: int) -> u32
    decreases k,
{
    if k <= 0 {
        0
    } else {
        (sbox_fold(state, k - 1) << 4u32) | (SBOXES@[k - 1]@[sbox_input(state, k - 1)] as u32)
    }
}

pub open spec fn spec_sbox_transform(state: u64) -> u32 {
    sbox_fold(state, 8)
}

/// The round function applied to the right half `r` with the round key `key`.
#[verifier::opaque]
pub open spec fn spec_round_f(r: u32, key: u64) -> u32 {
    let expanded = spec_map_u64(spec_make_u64(r, r), KEY_EXPANSION@) ^ key;
    spec_map_u32_bits(spec_sbox_transform(expanded), PBOX@)
}

/// One Feistel round: the state holds the left half in its low word and the
/// right half in its high word.
pub open spec fn spec_des_crypt_proc(state: u64, key: u64) -> u64 {
    let r = spec_hi32(state);
    let l = spec_lo32(state);
    spec_make_u64(spec_round_f(r, key) ^ l, r)
}

/// The rounds with the keys of `keys`, in order.
pub open spec fn spec_rounds(state: u64, keys: Seq<u64>) -> u64
    decreases keys.len(),
{
    if keys.len() == 0 {
        state
    } else {
        spec_des_crypt_proc(spec_rounds(state, keys.drop_last()), keys.last())
    }
}

/// A block through the cipher: encryption takes the round keys last to first.
pub open spec fn spec_des_crypt(subkeys: Seq<u64>, data: u64, is_encrypt: bool) -> u64 {
    let keys = if is_encrypt {
        subkeys.reverse()
    } else {
        subkeys
    };
    spec_des_ip_inv(spec_swap_u64_side(spec_rounds(spec_des_ip(data), keys)))
}

/// The rotation of a 28-bit key half kept in the top bits of a word.
pub open spec fn spec_update_param(param: u32, shift_left: u8) -> u32 {
    (param << shift_left) | ((param >> (28 - shift_left) as u8) & 0xFFFFFFF0u32)
}

/// The two key halves after `i` rounds of rotation.
pub open spec fn spec_key_halves(key: u64, i: int) -> (u32, u32)
    decreases i,
{
    if i <= 0 {
        let param = spec_map_u64(key, KEY_PERMUTATION_TABLE@);
        (spec_lo32(param), spec_hi32(param))
    } else {
        let (c, d) = spec_key_halves(key, i - 1);
        let s = KEY_RND_SHIFTS@[i - 1];
        (spec_update_param(c, s), spec_update_param(d, s))
    }
}

/// The round key of round `i` (counted from 0).
pub open spec fn spec_subkey(key: u64, i: int) -> u64 {
    let (c, d) = spec_key_halves(key, i + 1);
    spec_map_u64(spec_make_u64(d, c), KEY_COMPRESSION@)
}

/// The sixteen round keys of an eight-byte key.
pub open spec fn spec_des_subkeys(key: Seq<u8>) -> Seq<u64> {
    Seq::new(16, |i: int| spec_subkey(spec_le_u64(key), i))
}

/// Byte `i` of `data` after its eight-byte block went through the cipher.
pub open spec fn crypt_bytes_at(subkeys: Seq<u64>, data: Seq<u8>, is_encrypt: bool, i: int) -> u8 {
    let start = i / 8 * 8;
    spec_u64_le_bytes(
        spec_des_crypt(subkeys, spec_le_u64(data.subrange(start, start + 8)), is_encrypt),
    )[i % 8]
}

/// Every eight-byte block of `data` through the cipher.
pub open spec fn spec_crypt_bytes(subkeys: Seq<u64>, data: Seq<u8>, is_encrypt: bool) -> Seq<u8> {
    Seq::new(data.len(), |i: int| crypt_bytes_at(subkeys, data, is_encrypt, i))
}

pub fn des_ip(data: u64) -> (r: u64)
    ensures
        r == spec_des_ip(data),
{
    map_u64(data, &IP)
}

pub fn des_ip_inv(data: u64) -> (r: u64)
    ensures
        r == spec_des_ip_inv(data),
{
    map_u64(data, &IP_INV)
}

pub fn sbox_transform(state: u64) -> (r: u32)
    ensures
        r == spec_sbox_transform(state),
{
    let mut next = 0u32;
    let mut i: usize = 0;
    while i < 8
        invariant
            i <= 8,
            next == sbox_fold(state, i as int),
        decreases 8 - i,
    {
        let shift = LARGE_STATE_SHIFTS[i];
        let sbox_idx = (state >> shift) & 0b111111;
        assert(sbox_idx < 64) by (bit_vector)
            requires sbox_idx == (state >> shift) & 0b111111;
        next = (next << 4u32) | (SBOXES[i][sbox_idx as usize] as u32);
        i = i + 1;
    }
    next
}

pub fn des_crypt_proc(state: u64, key: u64) -> (r: u64)
    ensures
        r == spec_des_crypt_proc(state, key),
{
    reveal(spec_round_f);
    let state_hi32 = u64_get_hi32(state);
    let state_lo32 = u64_get_lo32(state);

    let mut st = map_u64(make_u64(state_hi32, state_hi32), &KEY_EXPANSION);
    st = st ^ key;

    let mut next_lo32 = sbox_transform(st);
    next_lo32 = map_u32_bits(next_lo32, &PBOX);
    next_lo32 = next_lo32 ^ state_lo32;

    make_u64(next_lo32, state_hi32)
}

fn update_param(param: &mut u32, shift_left: u8)
    requires
        shift_left <= 28,
    ensures
        *final(param) == spec_update_param(*old(param), shift_left),
{
    let shift_right: u8 = 28 - shift_left;
    *param = (*param << shift_left) | ((*param >> shift_right) & 0xFFFFFFF0u32);
}

/// QRC's modified DES: a key schedule of sixteen round keys.
#[derive(Debug, Clone, Copy)]
pub struct Des {
    subkeys: [u64; 16],
}

impl View for Des {
    type V = Seq<u64>;

    closed spec fn view(&self) -> Seq<u64> {
        self.subkeys@
    }
}

/// The mode in which a block transform runs.
#[derive(Debug, Clone, Copy, PartialEq, Eq)]
pub enum DESMode {
    Encrypt,
    Decrypt,
}

impl Default for Des {
    fn default() -> (r: Self)
        ensures
            r@ == Seq::new(16, |i: int| 0u64),
    {
        let r = Des { subkeys: [0u64; 16] };
        assert(r@ =~= Seq::new(16, |i: int| 0u64));
        r
    }
}

proof fn lemma_block_index(off: int, i: int)
    requires
        off % 8 == 0,
        0 <= off <= i < off + 8,
    ensures
        i / 8 * 8 == off,
        i % 8 == i - off,
{
    assert(i / 8 * 8 == off && i % 8 == i - off) by (nonlinear_arith)
        requires off % 8 == 0, 0 <= off <= i < off + 8;
}

/// Overwrites the eight bytes at `off` with `out`.
fn write_block(data: &mut [u8], off: usize, out: &[u8; 8])
    requires
        off + 8 <= old(data)@.len(),
    ensures
        final(data)@ == old(data)@.take(off as int) + out@ + old(data)@.skip(off + 8),
{
    let ghost orig = data@;
    let mut j: usize = 0;
    while j < 8
        invariant
            j <= 8,
            off + 8 <= orig.len(),
            off + 8 <= data.len(),
            data@.len() == orig.len(),
            forall|i: int| 0 <= i < off ==> data@[i] == orig[i],
            forall|i: int| off <= i < off + j ==> data@[i] == out@[i - off],
            forall|i: int| off + j <= i < orig.len() ==> data@[i] == orig[i],
        decreases 8 - j,
    {
        data[off + j] = out[j];
        j = j + 1;
    }
    assert(data@ =~= orig.take(off as int) + out@ + orig.skip(off + 8));
}

impl Des {
    pub fn new(key: &[u8; 8]) -> (r: Self)
        ensures
            r@ == spec_des_subkeys(key@),
    {
        let mut result = Self::default();
        result.set_key(key);
        result
    }

    pub fn set_key(&mut self, key: &[u8; 8])
        ensures
            final(self)@ == spec_des_subkeys(key@),
    {
        let key_value = read_u64_le(key, 0);
        assert(key@.subrange(0, 8) =~= key@);
        let param = map_u64(key_value, &KEY_PERMUTATION_TABLE);
        let mut param_c = u64_get_lo32(param);
        let mut param_d = u64_get_hi32(param);

        let mut i: usize = 0;
        while i < 16
            invariant
                i <= 16,
                key_value == spec_le_u64(key@),
                (param_c, param_d) == spec_key_halves(key_value, i as int),
                self.subkeys@.len() == 16,
                forall|j: int| 0 <= j < i ==> self.subkeys@[j] == spec_subkey(key_value, j),
            decreases 16 - i,
        {
            let shift_left = KEY_RND_SHIFTS[i];
            update_param(&mut param_c, shift_left);
            update_param(&mut param_d, shift_left);

            let k = make_u64(param_d, param_c);
            self.subkeys[i] = map_u64(k, &KEY_COMPRESSION);
            i = i + 1;
        }
        assert(self@ =~= spec_des_subkeys(key@));
    }

    pub fn crypt_block<const IS_ENCRYPT: bool>(&self, data: u64) -> (r: u64)
        ensures
            r == spec_des_crypt(self@, data, IS_ENCRYPT),
    {
        let ghost s0 = spec_des_ip(data);
        let ghost keys = if IS_ENCRYPT {
            self@.reverse()
        } else {
            self@
        };
        let mut state = des_ip(data);
        let mut i: usize = 0;
        while i < 16
            invariant
                i <= 16,
                self@.len() == 16,
                keys == (if IS_ENCRYPT {
                    self@.reverse()
                } else {
                    self@
                }),
                state == spec_rounds(s0, keys.take(i as int)),
            decreases 16 - i,
        {
            let key = if IS_ENCRYPT {
                self.subkeys[15 - i]
            } else {
                self.subkeys[i]
            };
            assert(keys[i as int] == key);
            assert(keys.take(i + 1).drop_last() =~= keys.take(i as int));
            state = des_crypt_proc(state, key);
            i = i + 1;
        }
        assert(keys.take(16) =~= keys);

        // Swap data hi32/lo32
        state = swap_u64_side(state);

        // Final permutation
        des_ip_inv(state)
    }

    /// Runs every eight-byte block through the cipher; refuses data whose
    /// length is not a multiple of eight, leaving it as it was.
    pub fn crypt_block_bytes<const IS_ENCRYPT: bool>(&self, data: &mut [u8]) -> (r: Option<()>)
        ensures
            r is Some <==> old(data)@.len() % 8 == 0,
            r is Some ==> final(data)@ == spec_crypt_bytes(self@, old(data)@, IS_ENCRYPT),
            r is None ==> final(data)@ == old(data)@,
    {
        if data.len() % 8 == 0 {
            let ghost orig = data@;
            let n = data.len();
            let mut off: usize = 0;
            while off < n
                invariant
                    n == orig.len(),
                    n % 8 == 0,
                    data@.len() == n,
                    off <= n,
                    off % 8 == 0,
                    forall|i: int| 0 <= i < off ==> data@[i] == crypt_bytes_at(self@, orig, IS_ENCRYPT, i),
                    forall|i: int| off <= i < n ==> data@[i] == orig[i],
                decreases n - off,
            {
                let value = read_u64_le(data, off);
                assert(data@.subrange(off as int, off + 8) =~= orig.subrange(off as int, off + 8));
                let transformed = self.crypt_block::<IS_ENCRYPT>(value);
                let out = u64_to_le_bytes(transformed);
                let ghost prev = data@;
                write_block(data, off, &out);
                assert forall|i: int| 0 <= i < off + 8 implies data@[i] == crypt_bytes_at(self@, orig, IS_ENCRYPT, i) by {
                    if i >= off {
                        lemma_block_index(off as int, i);
                        assert(data@[i] == out@[i - off]);
                    } else {
                        assert(data@[i] == prev[i]);
                    }
                }
                assert forall|i: int| off + 8 <= i < n implies data@[i] == orig[i] by {
                    assert(data@[i] == prev[i]);
                }
                off = off + 8;
            }
            assert(data@ =~= spec_crypt_bytes(self@, orig, IS_ENCRYPT));
            Some(())
        } else {
            None
        }
    }

    pub fn encrypt_bytes(&self, data: &mut [u8]) -> (r: Option<()>)
        ensures
            r is Some <==> old(data)@.len() % 8 == 0,
            r is Some ==> final(data)@ == spec_crypt_bytes(self@, old(data)@, true),
            r is None ==> final(data)@ == old(data)@,
    {
        self.crypt_block_bytes::<true>(data)
    }

    pub fn decrypt_bytes(&self, data: &mut [u8]) -> (r: Option<()>)
        ensures
            r is Some <==> old(data)@.len() % 8 == 0,
            r is Some ==> final(data)@ == spec_crypt_bytes(self@, old(data)@, false),
            r is None ==> final(data)@ == old(data)@,
    {
        self.crypt_block_bytes::<false>(data)
    }
}

} // verus!
