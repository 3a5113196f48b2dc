//! The known-plaintext attack from end to end: the ciphertext is made under
//! a key whose low bits the attacker does not know, and a timed search
//! recovers a key from it.
use vstd::prelude::*;
use vstd::arithmetic::power2::pow2;
use std::time::Duration;
use crate::cipher::rc4;
use crate::clock::{elapsed_since, now};
use crate::error::Error;
use crate::keyspace::{attack_key, key_bytes, search_base, search_base_spec};
use crate::search::{
    decrypts, find_key, find_key_spec, lemma_search_succeeds_after_setup, observed_spec,
    SearchOutcome,
};

verus! {

/// A successful search together with the time it took.
#[derive(Clone, Copy, Debug)]
pub struct SearchReport {
    /// The key that was found and its position among the candidates.
    pub outcome: SearchOutcome,
    /// Wall-clock time from just before the first candidate was tried until
    /// the match was found.
    pub elapsed: Duration,
}

/// Sets the attack up: encrypts `plaintext` under `true_key` with its
/// `unknown_bits` low bits all set.
pub fn capture_ciphertext(plaintext: &[u8], true_key: u128, unknown_bits: u32) -> (r: Result<
    Vec<u8>,
    Error,
>)
    ensures
        unknown_bits > 128 ==> r == Err::<Vec<u8>, Error>(Error::BitCountOutOfRange),
        unknown_bits <= 128 ==> r is Ok && r->Ok_0@ == observed_spec(
            plaintext@,
            true_key,
            unknown_bits,
        ),
{
    match attack_key(true_key, unknown_bits) {
        Ok(key) => {
            let bytes = key_bytes(key);
            Ok(rc4(plaintext, bytes.as_slice()))
        },
        Err(e) => Err(e),
    }
}

/// Searches the candidate keys as [`find_key`] does and measures how long
/// the search takes.
///
/// The result is that of [`find_key`]; nothing is claimed of the time.
pub fn brute_force_search(
    ciphertext: &[u8],
    plaintext: &[u8],
    known_key: u128,
    unknown_bits: u32,
) -> (r: Result<SearchReport, Error>)
    ensures
        match r {
            Ok(report) => find_key_spec(ciphertext@, plaintext@, known_key, unknown_bits) == Ok::<
                SearchOutcome,
                Error,
            >(report.outcome),
            Err(e) => find_key_spec(ciphertext@, plaintext@, known_key, unknown_bits) == Err::<
                SearchOutcome,
                Error,
            >(e),
        },
{
    let start = now();
    match find_key(ciphertext, plaintext, known_key, unknown_bits) {
        Ok(outcome) => {
            let elapsed = elapsed_since(&start);
            Ok(SearchReport { outcome, elapsed })
        },
        Err(e) => Err(e),
    }
}

/// Runs the whole attack on `plaintext`: makes the ciphertext under
/// `true_key` with its `unknown_bits` low bits set, then searches from
/// `true_key` with those bits cleared.
///
/// For a width of at most 128 bits the search always succeeds, after at
/// most `2^unknown_bits` candidates, with a key that decrypts the
/// ciphertext to `plaintext`.
pub fn run_attack(plaintext: &[u8], true_key: u128, unknown_bits: u32) -> (r: Result<
    SearchReport,
    Error,
>)
    ensures
        unknown_bits > 128 ==> r == Err::<SearchReport, Error>(Error::BitCountOutOfRange),
        unknown_bits <= 128 ==> {
            let ciphertext = observed_spec(plaintext@, true_key, unknown_bits);
            let base = search_base_spec(true_key, unknown_bits);
            &&& r is Ok
            &&& find_key_spec(ciphertext, plaintext@, base, unknown_bits) == Ok::<
                SearchOutcome,
                Error,
            >(r->Ok_0.outcome)
            &&& r->Ok_0.outcome.iterations() <= pow2(unknown_bits as nat)
            &&& decrypts(ciphertext, plaintext@, r->Ok_0.outcome.key)
        },
{
    let ciphertext = match capture_ciphertext(plaintext, true_key, unknown_bits) {
        Ok(c) => c,
        Err(e) => {
            return Err(e);
        },
    };
    let base = match search_base(true_key, unknown_bits) {
        Ok(b) => b,
        Err(e) => {
            return Err(e);
        },
    };
    proof {
        lemma_search_succeeds_after_setup(plaintext@, true_key, unknown_bits);
    }
    brute_force_search(ciphertext.as_slice(), plaintext, base, unknown_bits)
}

} // verus!
