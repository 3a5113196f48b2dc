//! RC4 stream cipher with a verified known-plaintext key search.
//!
//! The cipher is split into its two classical phases: the key scheduler
//! ([`schedule::ksa`]) and the keystream engine ([`keystream::prga`]), which
//! [`cipher::rc4`] runs one after the other on a fresh
//! [`permutation::State`]. On top of it, [`search::find_key`] tries every
//! key of a 128-bit space whose low bits are unknown ([`keyspace`]), and
//! [`attack`] runs and times the whole demonstration.
//!
//! Every executable function carries a contract over the mathematical
//! model defined next to it; only the wall clock ([`clock`]) is taken on
//! trust.
pub mod permutation;
pub mod schedule;
pub mod keystream;
pub mod error;
pub mod cipher;
pub mod keyspace;
pub mod search;
pub mod clock;
pub mod attack;
