//! The space of candidate keys: a 128-bit key whose low bits are unknown.
use vstd::prelude::*;
use vstd::arithmetic::div_mod::{
    lemma_basic_div, lemma_div_denominator, lemma_fundamental_div_mod,
    lemma_fundamental_div_mod_converse,
};
use vstd::arithmetic::power2::{
    lemma2_to64, lemma2_to64_rest, lemma_pow2_adds, lemma_pow2_pos, pow2,
};
use vstd::bits::lemma_u128_shr_is_div;
use crate::error::Error;

verus! {

/// Width of a key in bits.
pub const KEY_BITS: u32 = 128;

/// Width of a key in bytes.
pub const KEY_BYTES: usize = 16;

/// The mask with the low `bits` bits set: `2^bits - 1`.
pub open spec fn mask_spec(bits: u32) -> u128 {
    (pow2(bits as nat) - 1) as u128
}

/// The key under which the observed ciphertext is made: `key` with its
/// unknown low bits all set.
pub open spec fn attack_key_spec(key: u128, bits: u32) -> u128 {
    key | mask_spec(bits)
}

/// The first candidate of the search: `key` with its unknown low bits all
/// cleared.
pub open spec fn search_base_spec(key: u128, bits: u32) -> u128 {
    key & !mask_spec(bits)
}

/// Byte `i` of the 16-byte big-endian encoding of `key`.
pub open spec fn key_byte_spec(key: u128, i: int) -> u8 {
    ((key as nat / pow2((8 * (15 - i)) as nat)) % 256) as u8
}

/// The 16-byte big-endian encoding of `key`.
pub open spec fn key_bytes_spec(key: u128) -> Seq<u8> {
    Seq::new(16, |i: int| key_byte_spec(key, i))
}

/// The number that `bytes` encodes, most significant byte first.
pub open spec fn be_value(bytes: Seq<u8>) -> nat
    decreases bytes.len(),
{
    if bytes.len() == 0 {
        0
    } else {
        be_value(bytes.drop_last()) * 256 + bytes.last() as nat
    }
}

/// `2^128` is one more than the largest 128-bit value.
pub proof fn lemma_pow2_128()
    ensures
        pow2(128) == u128::MAX + 1,
{
    lemma2_to64_rest();
    lemma_pow2_adds(64, 64);
    assert(0x1_0000_0000_0000_0000int * 0x1_0000_0000_0000_0000int
        == 0x1_0000_0000_0000_0000_0000_0000_0000_0000int) by (nonlinear_arith);
}

/// For a width of 1 to 128 bits the mask is the all-ones value shifted
/// right by the bits that are known, and it is `2^bits - 1` without
/// wrapping.
pub proof fn lemma_mask_is_shift(bits: u32)
    requires
        1 <= bits <= 128,
    ensures
        mask_spec(bits) == u128::MAX >> ((128 - bits) as u128),
        mask_spec(bits) == pow2(bits as nat) - 1,
{
    let known = (128 - bits) as nat;
    let d = pow2(known) as int;
    let q = pow2(bits as nat) as int;
    lemma_pow2_128();
    lemma_pow2_adds(bits as nat, known);
    lemma_pow2_pos(known);
    lemma_pow2_pos(bits as nat);
    assert((q - 1) * d + (d - 1) == q * d - 1) by (nonlinear_arith);
    assert(q <= q * d) by (nonlinear_arith)
        requires
            q >= 1,
            d >= 1,
    ;
    lemma_fundamental_div_mod_converse(u128::MAX as int, d, q - 1, d - 1);
    lemma_u128_shr_is_div(u128::MAX, (128 - bits) as u128);
}

/// The mask of a width of at most 128 bits is `2^bits - 1`, which fits in
/// 128 bits.
pub proof fn lemma_mask_value(bits: u32)
    requires
        bits <= 128,
    ensures
        mask_spec(bits) == pow2(bits as nat) - 1,
{
    if bits == 0 {
        lemma2_to64();
    } else {
        lemma_mask_is_shift(bits);
    }
}

/// The first `n` bytes of the encoding of `key` encode `key` without its
/// low `16 - n` bytes.
proof fn lemma_key_bytes_prefix(key: u128, n: nat)
    requires
        n <= 16,
    ensures
        be_value(key_bytes_spec(key).take(n as int)) == key as nat / pow2((8 * (16 - n)) as nat),
    decreases n,
{
    let bytes = key_bytes_spec(key);
    let prefix = bytes.take(n as int);
    if n == 0 {
        lemma_pow2_128();
        lemma_basic_div(key as int, pow2(128) as int);
    } else {
        lemma_key_bytes_prefix(key, (n - 1) as nat);
        assert(prefix.drop_last() =~= bytes.take(n - 1));
        let low = pow2((8 * (16 - n)) as nat);
        let rest = key as nat / low;
        lemma2_to64();
        lemma_pow2_pos((8 * (16 - n)) as nat);
        lemma_pow2_adds((8 * (16 - n)) as nat, 8);
        lemma_div_denominator(key as int, low as int, 256);
        lemma_fundamental_div_mod(rest as int, 256);
        assert(prefix.last() == key_byte_spec(key, n - 1));
        assert(be_value(prefix.drop_last()) == rest / 256);
    }
}

/// The encoding of a key has 16 bytes and, read as a big-endian number,
/// gives the key back.
pub proof fn lemma_key_bytes_value(key: u128)
    ensures
        key_bytes_spec(key).len() == 16,
        be_value(key_bytes_spec(key)) == key,
{
    lemma_key_bytes_prefix(key, 16);
    lemma2_to64();
    assert(key_bytes_spec(key).take(16) =~= key_bytes_spec(key));
}

/// The candidates are the `2^bits` consecutive integers from the base
/// upwards: candidate number `x` is the base plus `x`, so the candidates
/// ascend with their numbers and the last of them is the attack key.
pub proof fn lemma_candidates_are_consecutive(key: u128, bits: u32, x: u128)
    requires
        bits <= 128,
        x <= mask_spec(bits),
    ensures
        search_base_spec(key, bits) | x == search_base_spec(key, bits) + x,
        search_base_spec(key, bits) | mask_spec(bits) == attack_key_spec(key, bits),
{
    let m = mask_spec(bits);
    assert((key & !m) | m == key | m) by (bit_vector);
    if bits == 0 {
        lemma2_to64();
        assert((key & !0u128) | 0u128 == (key & !0u128) + 0u128) by (bit_vector);
    } else {
        lemma_mask_is_shift(bits);
        let known = (128 - bits) as u128;
        assert((key & !m) | x == (key & !m) + x) by (bit_vector)
            requires
                known < 128,
                m == u128::MAX >> known,
                x <= m,
        ;
    }
}

/// The mask with the low `bits` bits set, for a width of at most 128 bits.
pub fn mask(bits: u32) -> (r: Result<u128, Error>)
    ensures
        bits <= 128 ==> r == Ok::<u128, Error>(mask_spec(bits)),
        bits > 128 ==> r == Err::<u128, Error>(Error::BitCountOutOfRange),
{
    if bits > KEY_BITS {
        Err(Error::BitCountOutOfRange)
    } else if bits == 0 {
        proof {
            lemma2_to64();
        }
        Ok(0)
    } else {
        proof {
            lemma_mask_is_shift(bits);
        }
        Ok(u128::MAX >> (KEY_BITS - bits))
    }
}

/// `key` with its `bits` unknown low bits all set.
pub fn attack_key(key: u128, bits: u32) -> (r: Result<u128, Error>)
    ensures
        bits <= 128 ==> r == Ok::<u128, Error>(attack_key_spec(key, bits)),
        bits > 128 ==> r == Err::<u128, Error>(Error::BitCountOutOfRange),
{
    match mask(bits) {
        Ok(m) => Ok(key | m),
        Err(e) => Err(e),
    }
}

/// `key` with its `bits` unknown low bits all cleared.
pub fn search_base(key: u128, bits: u32) -> (r: Result<u128, Error>)
    ensures
        bits <= 128 ==> r == Ok::<u128, Error>(search_base_spec(key, bits)),
        bits > 128 ==> r == Err::<u128, Error>(Error::BitCountOutOfRange),
{
    match mask(bits) {
        Ok(m) => Ok(key & !m),
        Err(e) => Err(e),
    }
}

/// The 16 bytes of `key`, most significant first.
pub fn key_bytes(key: u128) -> (bytes: [u8; 16])
    ensures
        bytes@ == key_bytes_spec(key),
{
    let mut bytes = [0u8; KEY_BYTES];
    let mut i: usize = 0;
    while i < KEY_BYTES
        invariant
            i <= 16,
            forall|k: int| 0 <= k < i ==> bytes@[k] == key_byte_spec(key, k),
        decreases 16 - i,
    {
        let shift: u32 = (8 * (15 - i)) as u32;
        let shifted: u128 = key >> shift;
        let low: u128 = shifted & 0xff;
        proof {
            lemma_u128_shr_is_div(key, shift as u128);
            assert(low == shifted % 256) by (bit_vector)
                requires
                    low == shifted & 0xff,
            ;
        }
        bytes[i] = low as u8;
        i += 1;
    }
    proof {
        assert(bytes@ =~= key_bytes_spec(key));
    }
    bytes
}

} // verus!
