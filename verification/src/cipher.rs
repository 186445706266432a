//! The symmetric stream transform shared by the store and the session layer.
//!
//! Every byte of the input is combined by exclusive-or with the key byte at
//! the same position, the key being repeated as often as needed. The
//! transform is its own inverse under a non-empty key.

use vstd::prelude::*;

verus! {

/// The transform as a mathematical function. With an empty key nothing can be
/// paired with the data, and the result is empty.
pub open spec fn xor_stream(data: Seq<u8>, key: Seq<u8>) -> Seq<u8> {
    if key.len() == 0 {
        Seq::empty()
    } else {
        Seq::new(data.len(), |i: int| data[i] ^ key[i % key.len() as int])
    }
}

/// Applies the key stream to `data`.
pub fn apply_key_stream(data: &[u8], key: &[u8]) -> (out: Vec<u8>)
    ensures
        out@ == xor_stream(data@, key@),
{
    let mut out: Vec<u8> = Vec::new();
    if key.len() == 0 {
        return out;
    }
    let mut i: usize = 0;
    while i < data.len()
        invariant
            key@.len() > 0,
            i <= data@.len(),
            out@.len() == i,
            forall|j: int| 0 <= j < i ==> out@[j] == data@[j] ^ key@[j % key@.len() as int],
        decreases data@.len() - i,
    {
        out.push(data[i] ^ key[i % key.len()]);
        i += 1;
    }
    out
}

/// Applying the same non-empty key twice gives the input back.
pub proof fn lemma_xor_stream_involution(data: Seq<u8>, key: Seq<u8>)
    requires
        key.len() > 0,
    ensures
        xor_stream(xor_stream(data, key), key) == data,
{
    let once = xor_stream(data, key);
    let twice = xor_stream(once, key);
    assert forall|i: int| 0 <= i < data.len() implies twice[i] == data[i] by {
        let d = data[i];
        let k = key[i % key.len() as int];
        assert((d ^ k) ^ k == d) by (bit_vector);
    }
}

} // verus!
