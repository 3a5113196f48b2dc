//! The cipher operation: key scheduling followed by one pass of the
//! keystream engine. Encryption and decryption are the same operation.
use vstd::prelude::*;
use crate::error::Error;
use crate::keystream::{keystream, keystream_byte, prga, xor_bytes};
use crate::schedule::{ksa, ksa_spec};

verus! {

/// The output of the cipher for `key` and `message`: the message combined
/// with the keystream of the permutation that `key` schedules.
pub open spec fn cipher_spec(key: Seq<u8>, message: Seq<u8>) -> Seq<u8> {
    xor_bytes(message, keystream(ksa_spec(key), message.len()))
}

/// The cipher's output is as long as its input; in particular the empty
/// message yields the empty output.
pub proof fn lemma_cipher_preserves_length(key: Seq<u8>, message: Seq<u8>)
    ensures
        cipher_spec(key, message).len() == message.len(),
        message.len() == 0 ==> cipher_spec(key, message) == Seq::<u8>::empty(),
{
    if message.len() == 0 {
        assert(cipher_spec(key, message) =~= Seq::<u8>::empty());
    }
}

/// Applying the cipher twice with one key gives the message back.
pub proof fn lemma_cipher_involution(key: Seq<u8>, message: Seq<u8>)
    ensures
        cipher_spec(key, cipher_spec(key, message)) == message,
{
    let cells = ksa_spec(key);
    let once = cipher_spec(key, message);
    let twice = cipher_spec(key, once);
    assert forall|k: int| 0 <= k < message.len() implies twice[k] == message[k] by {
        let m = message[k];
        let pad = keystream_byte(cells, k as nat);
        assert((m ^ pad) ^ pad == m) by (bit_vector);
    }
    assert(twice =~= message);
}

/// Encrypts or decrypts `text` under `key`, on a permutation state that is
/// scheduled afresh and dropped afterwards.
pub fn rc4(text: &[u8], key: &[u8]) -> (out: Vec<u8>)
    requires
        key@.len() >= 1,
    ensures
        out@ == cipher_spec(key@, text@),
        out@.len() == text@.len(),
{
    let mut state = ksa(key);
    prga(&mut state, text)
}

/// The cipher operation with its key validated: refuses the empty key and
/// otherwise encrypts or decrypts `message` under `key`.
pub fn cipher_operation(key: &[u8], message: &[u8]) -> (r: Result<Vec<u8>, Error>)
    ensures
        key@.len() == 0 ==> r == Err::<Vec<u8>, Error>(Error::EmptyKey),
        key@.len() >= 1 ==> r is Ok && r->Ok_0@ == cipher_spec(key@, message@),
{
    if key.len() == 0 {
        Err(Error::EmptyKey)
    } else {
        Ok(rc4(message, key))
    }
}

} // verus!
