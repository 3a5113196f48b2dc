//! Exhaustive search for a key whose low bits are unknown, given a
//! ciphertext and the plaintext it was made from.
use vstd::prelude::*;
use vstd::arithmetic::power2::{lemma2_to64, pow2};
use crate::cipher::{cipher_spec, lemma_cipher_involution, lemma_cipher_preserves_length, rc4};
use crate::error::Error;
use crate::keyspace::{
    attack_key_spec, key_bytes, key_bytes_spec, lemma_mask_value, mask, mask_spec,
    search_base_spec,
};

verus! {

/// A successful search: the key that was found and where it stands among
/// the candidates.
#[derive(Clone, Copy, Debug, PartialEq, Eq)]
pub struct SearchOutcome {
    /// The first candidate that decrypts the ciphertext to the plaintext.
    pub key: u128,
    /// Its position in the ascending order of candidates, counted from 0:
    /// the number of candidates that were tried and failed before it.
    pub index: u128,
}

impl SearchOutcome {
    /// The number of candidates tried, the successful one included.
    pub open spec fn iterations(&self) -> nat {
        (self.index + 1) as nat
    }

    /// The number of candidates tried, the successful one included, where it
    /// fits in 128 bits. It does not when the whole key was unknown and the
    /// last candidate of all was the first to match: the count is then
    /// `2^128`.
    pub fn iteration_count(&self) -> (n: Option<u128>)
        ensures
            self.index < u128::MAX ==> n == Some((self.index + 1) as u128),
            self.index == u128::MAX ==> n is None,
            n is Some ==> n->Some_0 == self.iterations(),
    {
        if self.index < u128::MAX {
            Some(self.index + 1)
        } else {
            None
        }
    }
}

/// The key `key` decrypts `ciphertext` to `plaintext`.
pub open spec fn decrypts(ciphertext: Seq<u8>, plaintext: Seq<u8>, key: u128) -> bool {
    cipher_spec(key_bytes_spec(key), ciphertext) == plaintext
}

/// Candidate number `x` above `base` decrypts `ciphertext` to `plaintext`.
pub open spec fn is_match(ciphertext: Seq<u8>, plaintext: Seq<u8>, base: u128, x: u128) -> bool {
    decrypts(ciphertext, plaintext, base | x)
}

/// Candidate number `x` is inside the space that `mask` spans, is a match,
/// and no candidate before it is one.
pub open spec fn is_first_match(
    ciphertext: Seq<u8>,
    plaintext: Seq<u8>,
    base: u128,
    mask: u128,
    x: u128,
) -> bool {
    &&& x <= mask
    &&& is_match(ciphertext, plaintext, base, x)
    &&& forall|y: u128| y < x ==> !#[trigger] is_match(ciphertext, plaintext, base, y)
}

/// What the search returns.
///
/// A width above 128 bits and texts of different lengths are refused, in
/// that order. Otherwise the candidates are `base | x` for `x` from 0 to
/// `2^bits - 1` in ascending order, where `base` is `known_key` with its
/// low `bits` bits cleared; the result is the first of them that decrypts
/// the ciphertext to the plaintext, or `NoMatch` where none does.
pub open spec fn find_key_spec(
    ciphertext: Seq<u8>,
    plaintext: Seq<u8>,
    known_key: u128,
    bits: u32,
) -> Result<SearchOutcome, Error> {
    if bits > 128 {
        Err(Error::BitCountOutOfRange)
    } else if ciphertext.len() != plaintext.len() {
        Err(Error::LengthMismatch)
    } else {
        let mask = mask_spec(bits);
        let base = search_base_spec(known_key, bits);
        if exists|x: u128| is_first_match(ciphertext, plaintext, base, mask, x) {
            let x = choose|x: u128| is_first_match(ciphertext, plaintext, base, mask, x);
            Ok(SearchOutcome { key: base | x, index: x })
        } else {
            Err(Error::NoMatch)
        }
    }
}

/// At most one candidate is the first match.
pub proof fn lemma_first_match_unique(
    ciphertext: Seq<u8>,
    plaintext: Seq<u8>,
    base: u128,
    mask: u128,
    x: u128,
    y: u128,
)
    requires
        is_first_match(ciphertext, plaintext, base, mask, x),
        is_first_match(ciphertext, plaintext, base, mask, y),
    ensures
        x == y,
{
}

/// Where some candidate up to `x` matches, there is a first match, and it
/// is not after `x`.
pub proof fn lemma_first_match_exists(
    ciphertext: Seq<u8>,
    plaintext: Seq<u8>,
    base: u128,
    mask: u128,
    x: u128,
)
    requires
        x <= mask,
        is_match(ciphertext, plaintext, base, x),
    ensures
        exists|f: u128| f <= x && is_first_match(ciphertext, plaintext, base, mask, f),
    decreases x,
{
    if forall|y: u128| y < x ==> !#[trigger] is_match(ciphertext, plaintext, base, y) {
        assert(is_first_match(ciphertext, plaintext, base, mask, x));
    } else {
        let y = choose|y: u128| y < x && #[trigger] is_match(ciphertext, plaintext, base, y);
        lemma_first_match_exists(ciphertext, plaintext, base, mask, y);
    }
}

/// The ciphertext that the attacker observes: `plaintext` encrypted under
/// `true_key` with its `bits` unknown low bits all set.
pub open spec fn observed_spec(plaintext: Seq<u8>, true_key: u128, bits: u32) -> Seq<u8> {
    cipher_spec(key_bytes_spec(attack_key_spec(true_key, bits)), plaintext)
}

/// A search never passes the key that made the ciphertext.
///
/// Let the ciphertext be made under candidate number `offset` of the space.
/// Then the search succeeds, the key it finds decrypts the ciphertext to the
/// plaintext, and it has tried at most `offset + 1` candidates. It has tried
/// exactly that many, and found that very candidate, where no candidate
/// before it decrypts the ciphertext to the plaintext as well.
pub proof fn lemma_search_reaches_target(
    plaintext: Seq<u8>,
    known_key: u128,
    bits: u32,
    offset: u128,
)
    requires
        bits <= 128,
        offset <= mask_spec(bits),
    ensures
        ({
            let base = search_base_spec(known_key, bits);
            let ciphertext = cipher_spec(key_bytes_spec(base | offset), plaintext);
            let r = find_key_spec(ciphertext, plaintext, known_key, bits);
            &&& r is Ok
            &&& r->Ok_0.index <= offset
            &&& r->Ok_0.iterations() <= offset + 1
            &&& r->Ok_0.key == base | r->Ok_0.index
            &&& decrypts(ciphertext, plaintext, r->Ok_0.key)
            &&& (forall|y: u128| y < offset ==> !#[trigger] is_match(ciphertext, plaintext, base, y))
                ==> r == Ok::<SearchOutcome, Error>(
                SearchOutcome { key: base | offset, index: offset },
            )
        }),
{
    let mask = mask_spec(bits);
    let base = search_base_spec(known_key, bits);
    let target = key_bytes_spec(base | offset);
    let ciphertext = cipher_spec(target, plaintext);
    lemma_cipher_preserves_length(target, plaintext);
    lemma_cipher_involution(target, plaintext);
    assert(is_match(ciphertext, plaintext, base, offset));
    lemma_first_match_exists(ciphertext, plaintext, base, mask, offset);
    let f = choose|f: u128| f <= offset && is_first_match(ciphertext, plaintext, base, mask, f);
    let x = choose|x: u128| is_first_match(ciphertext, plaintext, base, mask, x);
    lemma_first_match_unique(ciphertext, plaintext, base, mask, f, x);
}

/// The number of candidates that the search tries where the ciphertext is
/// made under candidate number `offset` of the space.
pub open spec fn cost_spec(plaintext: Seq<u8>, known_key: u128, bits: u32, offset: u128) -> nat {
    let base = search_base_spec(known_key, bits);
    let ciphertext = cipher_spec(key_bytes_spec(base | offset), plaintext);
    match find_key_spec(ciphertext, plaintext, known_key, bits) {
        Ok(outcome) => outcome.iterations(),
        Err(_) => 0,
    }
}

/// The sum of [`cost_spec`] over the first `n` candidates of the space.
pub open spec fn total_cost(plaintext: Seq<u8>, known_key: u128, bits: u32, n: nat) -> nat
    decreases n,
{
    if n == 0 {
        0
    } else {
        total_cost(plaintext, known_key, bits, (n - 1) as nat) + cost_spec(
            plaintext,
            known_key,
            bits,
            (n - 1) as u128,
        )
    }
}

/// Searching for each of the first `n` candidates in turn tries at most
/// `1 + 2 + ... + n` candidates in all. Over the whole space, `n = 2^bits`,
/// that is an average of at most `(2^bits + 1) / 2` per search: half the
/// space.
pub proof fn lemma_total_cost_bound(plaintext: Seq<u8>, known_key: u128, bits: u32, n: nat)
    requires
        bits <= 128,
        n <= pow2(bits as nat),
    ensures
        2 * total_cost(plaintext, known_key, bits, n) <= n * (n + 1),
    decreases n,
{
    if n > 0 {
        let before = (n - 1) as nat;
        lemma_total_cost_bound(plaintext, known_key, bits, before);
        lemma_mask_value(bits);
        lemma_search_reaches_target(plaintext, known_key, bits, before as u128);
        assert(before * (before + 1) + 2 * n == n * (n + 1)) by (nonlinear_arith)
            requires
                before == n - 1,
        ;
    }
}

/// After the attack is set up, the search always succeeds within the
/// space: for every true key and every width of at most 128 bits, the
/// search on the observed ciphertext finds a key that decrypts it to the
/// plaintext, and tries at most `2^bits` candidates.
pub proof fn lemma_search_succeeds_after_setup(plaintext: Seq<u8>, true_key: u128, bits: u32)
    requires
        bits <= 128,
    ensures
        ({
            let ciphertext = observed_spec(plaintext, true_key, bits);
            let base = search_base_spec(true_key, bits);
            let r = find_key_spec(ciphertext, plaintext, base, bits);
            &&& r is Ok
            &&& r->Ok_0.index <= mask_spec(bits)
            &&& r->Ok_0.iterations() <= pow2(bits as nat)
            &&& r->Ok_0.key == base | r->Ok_0.index
            &&& decrypts(ciphertext, plaintext, r->Ok_0.key)
        }),
{
    let mask = mask_spec(bits);
    let base = search_base_spec(true_key, bits);
    lemma_mask_value(bits);
    assert((true_key & !mask) | mask == true_key | mask) by (bit_vector);
    assert((true_key & !mask) & !mask == true_key & !mask) by (bit_vector);
    lemma_search_reaches_target(plaintext, base, bits, mask);
}

/// The search recovers the attack key as the last of `2^bits` candidates.
///
/// This holds wherever no earlier candidate decrypts the observed
/// ciphertext to the plaintext as well; where one does (for the empty
/// plaintext every key does), the search stops at that candidate.
pub proof fn lemma_search_recovers_attack_key(plaintext: Seq<u8>, true_key: u128, bits: u32)
    requires
        bits <= 128,
        forall|y: u128|
            y < mask_spec(bits) ==> !#[trigger] is_match(
                observed_spec(plaintext, true_key, bits),
                plaintext,
                search_base_spec(true_key, bits),
                y,
            ),
    ensures
        ({
            let ciphertext = observed_spec(plaintext, true_key, bits);
            let r = find_key_spec(ciphertext, plaintext, search_base_spec(true_key, bits), bits);
            &&& r == Ok::<SearchOutcome, Error>(
                SearchOutcome { key: attack_key_spec(true_key, bits), index: mask_spec(bits) },
            )
            &&& r->Ok_0.iterations() == pow2(bits as nat)
        }),
{
    let mask = mask_spec(bits);
    let base = search_base_spec(true_key, bits);
    lemma_mask_value(bits);
    assert((true_key & !mask) | mask == true_key | mask) by (bit_vector);
    assert((true_key & !mask) & !mask == true_key & !mask) by (bit_vector);
    lemma_search_reaches_target(plaintext, base, bits, mask);
}

/// With no bit unknown the search succeeds on its first candidate: the key
/// itself, after exactly one iteration.
pub proof fn lemma_known_key_found_at_once(plaintext: Seq<u8>, key: u128)
    ensures
        ({
            let ciphertext = cipher_spec(key_bytes_spec(key), plaintext);
            let r = find_key_spec(ciphertext, plaintext, key, 0);
            &&& r == Ok::<SearchOutcome, Error>(SearchOutcome { key, index: 0 })
            &&& r->Ok_0.iterations() == 1
        }),
{
    lemma_mask_value(0);
    lemma2_to64();
    assert(key & !0u128 == key) by (bit_vector);
    assert(key | 0u128 == key) by (bit_vector);
    lemma_search_reaches_target(plaintext, key, 0, 0);
}

/// Whether two byte strings are equal.
fn same_bytes(a: &[u8], b: &[u8]) -> (same: bool)
    ensures
        same == (a@ == b@),
{
    if a.len() != b.len() {
        return false;
    }
    let mut k: usize = 0;
    while k < a.len()
        invariant
            k <= a@.len(),
            a@.len() == b@.len(),
            forall|m: int| 0 <= m < k ==> a@[m] == b@[m],
        decreases a@.len() - k,
    {
        if a[k] != b[k] {
            return false;
        }
        k += 1;
    }
    proof {
        assert(a@ =~= b@);
    }
    true
}

/// Tries every candidate key in ascending order until one decrypts
/// `ciphertext` to `plaintext`.
///
/// The high `128 - unknown_bits` bits of `known_key` are taken as known; its
/// low bits are disregarded.
pub fn find_key(ciphertext: &[u8], plaintext: &[u8], known_key: u128, unknown_bits: u32) -> (r:
    Result<SearchOutcome, Error>)
    ensures
        r == find_key_spec(ciphertext@, plaintext@, known_key, unknown_bits),
{
    let mask = match mask(unknown_bits) {
        Ok(m) => m,
        Err(e) => {
            return Err(e);
        },
    };
    if ciphertext.len() != plaintext.len() {
        return Err(Error::LengthMismatch);
    }
    let base = known_key & !mask;
    let mut x: u128 = 0;
    loop
        invariant
            unknown_bits <= 128,
            ciphertext@.len() == plaintext@.len(),
            mask == mask_spec(unknown_bits),
            base == search_base_spec(known_key, unknown_bits),
            x <= mask,
            forall|y: u128| y < x ==> !#[trigger] is_match(ciphertext@, plaintext@, base, y),
        decreases mask - x,
    {
        let candidate = base | x;
        let bytes = key_bytes(candidate);
        let guess = rc4(ciphertext, bytes.as_slice());
        if same_bytes(guess.as_slice(), plaintext) {
            proof {
                assert(is_first_match(ciphertext@, plaintext@, base, mask, x));
                let f = choose|f: u128| is_first_match(ciphertext@, plaintext@, base, mask, f);
                lemma_first_match_unique(ciphertext@, plaintext@, base, mask, x, f);
            }
            return Ok(SearchOutcome { key: candidate, index: x });
        }
        if x == mask {
            proof {
                assert forall|f: u128| !is_first_match(ciphertext@, plaintext@, base, mask, f) by {
                    if f <= mask {
                        assert(!is_match(ciphertext@, plaintext@, base, f));
                    }
                }
            }
            return Err(Error::NoMatch);
        }
        x = x + 1;
    }
}

} // verus!
