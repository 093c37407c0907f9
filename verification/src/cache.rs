//! Keys of the build cache.
//!
//! Entries are keyed by `node_id`, a zero byte, then the input hash, so
//! different nodes never collide and a changed input is a new key.
use vstd::prelude::*;
use vstd::string::StringSliceAdditionalSpecFns;

verus! {

pub open spec fn key_spec(node_id: Seq<u8>, input_hash: Seq<u8>) -> Seq<u8> {
    node_id + seq![0u8] + input_hash
}

fn push_bytes(out: &mut Vec<u8>, b: &[u8])
    ensures
        final(out)@ == old(out)@ + b@,
{
    let ghost o = out@;
    let mut i: usize = 0;
    while i < b.len()
        invariant
            i <= b@.len(),
            out@ == o + b@.take(i as int),
        decreases b@.len() - i,
    {
        out.push(b[i]);
        i = i + 1;
        assert(out@ =~= o + b@.take(i as int));
    }
    assert(b@.take(b@.len() as int) =~= b@);
}

/// The cache key of a node's output for a given input hash.
pub fn make_key(node_id: &str, input_hash: &[u8]) -> (r: Vec<u8>)
    ensures
        r@ == key_spec(node_id.spec_bytes(), input_hash@),
{
    let mut key: Vec<u8> = Vec::new();
    push_bytes(&mut key, node_id.as_bytes());
    key.push(0u8);
    push_bytes(&mut key, input_hash);
    assert(key@ =~= key_spec(node_id.spec_bytes(), input_hash@));
    key
}

/// Keys of different nodes differ whenever neither id holds a zero byte,
/// whatever their input hashes.
pub proof fn lemma_keys_separate(id1: Seq<u8>, id2: Seq<u8>, h1: Seq<u8>, h2: Seq<u8>)
    requires
        id1 != id2,
        !id1.contains(0u8),
        !id2.contains(0u8),
    ensures
        key_spec(id1, h1) != key_spec(id2, h2),
{
    let a = key_spec(id1, h1);
    let b = key_spec(id2, h2);
    if a == b {
        if id1.len() < id2.len() {
            assert(a[id1.len() as int] == 0u8);
            assert(b[id1.len() as int] == id2[id1.len() as int]);
        } else if id2.len() < id1.len() {
            assert(b[id2.len() as int] == 0u8);
            assert(a[id2.len() as int] == id1[id2.len() as int]);
        } else {
            assert forall|i: int| 0 <= i < id1.len() implies id1[i] == id2[i] by {
                assert(a[i] == id1[i]);
                assert(b[i] == id2[i]);
            }
            assert(id1 =~= id2);
        }
    }
}

} // verus!
