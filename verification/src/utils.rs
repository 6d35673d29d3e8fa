use vstd::prelude::*;
use std::collections::hash_map::DefaultHasher;
use std::hash::Hasher;
use vstd::std_specs::hash::DefaultHasherAdditionalSpecFns;

verus! {

/// The little-endian byte decomposition of a key, as fed to the hasher.
pub open spec fn key_bytes(key: i64) -> Seq<u8> {
    let u = key as u64;
    seq![
        (u & 0xff) as u8,
        ((u >> 8) & 0xff) as u8,
        ((u >> 16) & 0xff) as u8,
        ((u >> 24) & 0xff) as u8,
        ((u >> 32) & 0xff) as u8,
        ((u >> 40) & 0xff) as u8,
        ((u >> 48) & 0xff) as u8,
        ((u >> 56) & 0xff) as u8,
    ]
}

/// The hash value a key is routed by. It is a fixed function of the key alone,
/// so every lookup of a key is routed to the same buckets as its insertion.
pub open spec fn key_hash(key: i64) -> usize {
    DefaultHasher::spec_finish(seq![key_bytes(key)]) as usize
}

/// Hashes a key by feeding its bytes to `DefaultHasher`.
pub fn hash(key: &i64) -> (r: usize)
    ensures
        r == key_hash(*key),
{
    let u: u64 = #[verifier::truncate] (*key as u64);
    let mut bytes: Vec<u8> = Vec::new();
    bytes.push((u & 0xff) as u8);
    bytes.push(((u >> 8) & 0xff) as u8);
    bytes.push(((u >> 16) & 0xff) as u8);
    bytes.push(((u >> 24) & 0xff) as u8);
    bytes.push(((u >> 32) & 0xff) as u8);
    bytes.push(((u >> 40) & 0xff) as u8);
    bytes.push(((u >> 48) & 0xff) as u8);
    bytes.push(((u >> 56) & 0xff) as u8);
    let mut hasher = DefaultHasher::new();
    hasher.write(bytes.as_slice());
    proof {
        assert(bytes@ =~= key_bytes(*key));
    }
    let h = hasher.finish();
    #[verifier::truncate] (h as usize)
}

/// Reduces a hash value to an index into an array of `size` routing units.
pub fn get_index(hash: usize, size: usize) -> (r: usize)
    requires
        size > 0,
    ensures
        r == hash % size,
        r < size,
{
    hash % size
}

} // verus!
