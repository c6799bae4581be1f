//! Storage obfuscation of received packfiles: a repeating XOR key, so that files stored for
//! peers are not recognisable on disk. Applying it twice gives the data back.
use vstd::prelude::*;

verus! {

/// The byte that `data[i]` becomes when obfuscated with a 4-byte key.
pub open spec fn obfuscated_byte(b: u8, key: [u8; 4], i: int) -> u8 {
    b ^ key[i % 4]
}

/// The whole sequence `data` obfuscated with `key`.
pub open spec fn obfuscated(data: Seq<u8>, key: [u8; 4]) -> Seq<u8> {
    Seq::new(data.len(), |i: int| obfuscated_byte(data[i], key, i))
}

/// Obfuscates/deobfuscates the given data in place with a repeating 4-byte XOR key.
pub fn obfuscate_data_impl(data: &mut [u8], key: [u8; 4]) -> (r: &[u8])
    ensures
        final(data)@ == obfuscated(old(data)@, key),
        r@ == final(data)@,
        final(data)@.len() == old(data)@.len(),
        forall|i: int| 0 <= i < old(data)@.len() ==> #[trigger] final(data)@[i] == old(data)@[i] ^ key[i % 4],
{
    let n = data.len();
    let mut i: usize = 0;
    while i < n
        invariant
            n == data@.len(),
            n == old(data)@.len(),
            0 <= i <= n,
            forall|j: int| 0 <= j < i ==> data@[j] == obfuscated_byte(old(data)@[j], key, j),
            forall|j: int| i <= j < n ==> data@[j] == old(data)@[j],
        decreases n - i,
    {
        let k = key[i % 4];
        data[i] = data[i] ^ k;
        i = i + 1;
    }
    assert(data@ =~= obfuscated(old(data)@, key));
    proof {
        lemma_obfuscation_is_xor(old(data)@, key);
    }
    data
}

/// Every byte of the data is obfuscated, whatever its position: byte `i` becomes the input
/// byte XOR the key byte `i % 4`, and the length stays the same.
pub proof fn lemma_obfuscation_is_xor(data: Seq<u8>, key: [u8; 4])
    ensures
        obfuscated(data, key).len() == data.len(),
        forall|i: int| 0 <= i < data.len() ==> #[trigger] obfuscated(data, key)[i] == data[i] ^ key[i % 4],
{
}

/// Obfuscation changes a byte exactly where the key byte for its position is not zero: with
/// a key of no zero bytes, no byte of the data is left as it was.
pub proof fn lemma_obfuscation_changes_every_byte(data: Seq<u8>, key: [u8; 4])
    ensures
        forall|i: int|
            0 <= i < data.len() ==> (#[trigger] obfuscated(data, key)[i] == data[i] <==> key[i % 4] == 0),
{
    assert forall|i: int| 0 <= i < data.len() implies (#[trigger] obfuscated(data, key)[i] == data[i]
        <==> key[i % 4] == 0) by {
        let b = data[i];
        let k = key[i % 4];
        assert((b ^ k == b) <==> k == 0) by (bit_vector);
    }
}


/// Obfuscating twice with the same key gives the data back.
pub proof fn lemma_obfuscation_involution(data: Seq<u8>, key: [u8; 4])
    ensures
        obfuscated(obfuscated(data, key), key) == data,
{
    assert forall|i: int| 0 <= i < data.len() implies #[trigger] obfuscated(obfuscated(data, key), key)[i]
        == data[i] by {
        let b = data[i];
        let k = key[i % 4];
        assert((b ^ k) ^ k == b) by (bit_vector);
    }
    assert(obfuscated(obfuscated(data, key), key) =~= data);
}

/// `data` obfuscated with the fixed one-byte key 0x42.
pub open spec fn obfuscated_fixed(data: Seq<u8>) -> Seq<u8> {
    Seq::new(data.len(), |i: int| data[i] ^ 0x42u8)
}

/// Obfuscates/deobfuscates the given data in place with the fixed key 0x42.
pub fn obfuscate_data(data: &mut [u8]) -> (r: &[u8])
    ensures
        final(data)@ == obfuscated_fixed(old(data)@),
        r@ == final(data)@,
        final(data)@.len() == old(data)@.len(),
        forall|i: int| 0 <= i < old(data)@.len() ==> #[trigger] final(data)@[i] == old(data)@[i] ^ 0x42u8,
{
    let n = data.len();
    let mut i: usize = 0;
    while i < n
        invariant
            n == data@.len(),
            n == old(data)@.len(),
            0 <= i <= n,
            forall|j: int| 0 <= j < i ==> data@[j] == old(data)@[j] ^ 0x42u8,
            forall|j: int| i <= j < n ==> data@[j] == old(data)@[j],
        decreases n - i,
    {
        data[i] = data[i] ^ 0x42u8;
        i = i + 1;
    }
    assert(data@ =~= obfuscated_fixed(old(data)@));
    data
}

/// Obfuscating twice with the fixed key gives the data back.
pub proof fn lemma_obfuscation_fixed_involution(data: Seq<u8>)
    ensures
        obfuscated_fixed(obfuscated_fixed(data)) == data,
{
    assert forall|i: int| 0 <= i < data.len() implies #[trigger] obfuscated_fixed(obfuscated_fixed(data))[i]
        == data[i] by {
        let b = data[i];
        assert((b ^ 0x42u8) ^ 0x42u8 == b) by (bit_vector);
    }
    assert(obfuscated_fixed(obfuscated_fixed(data)) =~= data);
}

} // verus!
