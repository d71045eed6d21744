use vstd::prelude::*;

verus! {

/// The multiplier of the hash.
pub const MURMUR_M: u32 = 0x5bd1_e995;

/// The seed of the hash.
pub const MURMUR_SEED: u32 = 1190494759;

/// MurmurHash2 of one 32-bit word, with 32-bit wrapping products.
pub open spec fn murmur_hash_11_spec(src: u32) -> u32 {
    let s1 = src.wrapping_mul(MURMUR_M);
    let s2 = s1 ^ (s1 >> 24u32);
    let s3 = s2.wrapping_mul(MURMUR_M);
    let h1 = MURMUR_SEED.wrapping_mul(MURMUR_M) ^ s3;
    let h2 = h1 ^ (h1 >> 13u32);
    let h3 = h2.wrapping_mul(MURMUR_M);
    h3 ^ (h3 >> 15u32)
}

/// Hashes one word; the geometry pass colours each meshlet by the hash of its index.
pub fn murmur_hash_11(src: u32) -> (r: u32)
    ensures
        r == murmur_hash_11_spec(src),
{
    let mut src = src.wrapping_mul(MURMUR_M);
    src = src ^ (src >> 24u32);
    src = src.wrapping_mul(MURMUR_M);
    let mut h = MURMUR_SEED.wrapping_mul(MURMUR_M);
    h = h ^ src;
    h = h ^ (h >> 13u32);
    h = h.wrapping_mul(MURMUR_M);
    h = h ^ (h >> 15u32);
    h
}

/// The red, green and blue levels, each in `0..256`, of the colour of `src`: bits 16 to 23,
/// 8 to 15 and 0 to 7 of its hash. Each channel's intensity is its level divided by 256.
pub fn murmur_hash_11_color(src: u32) -> (r: [u32; 3])
    ensures
        r[0] == (murmur_hash_11_spec(src) >> 16u32) & 0xffu32,
        r[1] == (murmur_hash_11_spec(src) >> 8u32) & 0xffu32,
        r[2] == murmur_hash_11_spec(src) & 0xffu32,
        r[0] < 256 && r[1] < 256 && r[2] < 256,
{
    let hash = murmur_hash_11(src);
    let red = (hash >> 16u32) & 0xffu32;
    let green = (hash >> 8u32) & 0xffu32;
    let blue = hash & 0xffu32;
    assert(red < 256 && green < 256 && blue < 256) by (bit_vector)
        requires
            red == (hash >> 16u32) & 0xffu32,
            green == (hash >> 8u32) & 0xffu32,
            blue == hash & 0xffu32,
    ;
    [red, green, blue]
}

} // verus!
