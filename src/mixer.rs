//! The hashimoto mixer: dataset items recomputed on demand from the cache,
//! fetched in pseudorandom pages and folded into a mix with FNV.
use crate::cache::{item, le_u32_at, read_le_u32, valid_cache_size};
use crate::error::EthashError;
use crate::hash::{keccak256_of, keccak512_of, keccak_256, keccak_512};
use crate::params::{HASH_BYTES, MIX_BYTES};
use vstd::prelude::*;

verus! {

/// Cache items folded into each dataset item.
pub const DATASET_PARENTS: usize = 256;
/// Dataset pages read by one hashimoto run.
pub const ACCESSES: usize = 64;
/// The 32-bit FNV prime.
pub const FNV_PRIME: u64 = 16777619;

/// FNV-style combine: multiply by the prime modulo 2^32, then xor.
pub open spec fn fnv(a: u32, b: u32) -> u32 {
    (((a as int) * (FNV_PRIME as int)) % 4294967296) as u32 ^ b
}

/// Word-wise `fnv` of two word sequences.
pub open spec fn fnv_mix(a: Seq<u32>, b: Seq<u32>) -> Seq<u32> {
    Seq::new(a.len(), |k: int| fnv(a[k], b[k]))
}

/// Little-endian 32-bit words of a byte string.
pub open spec fn words_of(s: Seq<u8>) -> Seq<u32> {
    Seq::new(s.len() / 4, |k: int| le_u32_at(s, 4 * k) as u32)
}

/// Byte `b` (0 = least significant) of a 32-bit word.
pub open spec fn le_byte(w: u32, b: int) -> u8 {
    if b == 0 {
        (w % 256) as u8
    } else if b == 1 {
        ((w / 256) % 256) as u8
    } else if b == 2 {
        ((w / 65536) % 256) as u8
    } else {
        ((w / 16777216) % 256) as u8
    }
}

/// Little-endian bytes of a word sequence.
pub open spec fn bytes_of(w: Seq<u32>) -> Seq<u8> {
    Seq::new(4 * w.len(), |k: int| le_byte(w[k / 4], k % 4))
}

/// `i` reduced to 32 bits.
pub open spec fn low32(i: int) -> u32 {
    (i % 4294967296) as u32
}

/// The mix of dataset item `i` after folding in its first `j` parents.
pub open spec fn parents_mix(cache: Seq<u8>, i: int, mix: Seq<u32>, j: nat) -> Seq<u32>
    decreases j,
{
    if j == 0 {
        mix
    } else {
        let m = parents_mix(cache, i, mix, (j - 1) as nat);
        let p = fnv(low32(i) ^ ((j - 1) as u32), m[(j - 1) % 16]) as int % (cache.len() as int / 64);
        fnv_mix(m, words_of(item(cache, p)))
    }
}

/// Item `i` (64 bytes) of the virtual dataset, derived from the cache.
pub open spec fn dataset_item(cache: Seq<u8>, i: int) -> Seq<u8> {
    let w = words_of(item(cache, i % (cache.len() as int / 64)));
    let first = w.update(0, w[0] ^ low32(i));
    let mix = words_of(keccak512_of(bytes_of(first)));
    keccak512_of(bytes_of(parents_mix(cache, i, mix, DATASET_PARENTS as nat)))
}

/// The nonce's bytes in reverse order: its little-endian encoding.
pub open spec fn nonce_le(nonce: Seq<u8>) -> Seq<u8> {
    Seq::new(8, |k: int| nonce[7 - k])
}

/// Keccak-512 of the header hash followed by the little-endian nonce.
pub open spec fn seed_digest(header: Seq<u8>, nonce: Seq<u8>) -> Seq<u8> {
    keccak512_of(header + nonce_le(nonce))
}

/// The mix after the first `a` page accesses.
pub open spec fn mix_accesses(
    cache: Seq<u8>,
    full_size: int,
    s0: u32,
    mix: Seq<u32>,
    a: nat,
) -> Seq<u32>
    decreases a,
{
    if a == 0 {
        mix
    } else {
        let m = mix_accesses(cache, full_size, s0, mix, (a - 1) as nat);
        let p = (fnv(((a - 1) as u32) ^ s0, m[(a - 1) % 32]) as int % (full_size / 128)) * 2;
        fnv_mix(m, words_of(dataset_item(cache, p) + dataset_item(cache, p + 1)))
    }
}

/// The 32-word mix folded to 8 words, four at a time.
pub open spec fn compress(mix: Seq<u32>) -> Seq<u32> {
    Seq::new(
        8,
        |k: int| fnv(fnv(fnv(mix[4 * k], mix[4 * k + 1]), mix[4 * k + 2]), mix[4 * k + 3]),
    )
}

/// Mix digest of one hashimoto run.
pub open spec fn mix_digest_of(header: Seq<u8>, nonce: Seq<u8>, full_size: int, cache: Seq<u8>) -> Seq<
    u8,
> {
    let sw = words_of(seed_digest(header, nonce));
    bytes_of(compress(mix_accesses(cache, full_size, sw[0], sw + sw, ACCESSES as nat)))
}

/// Result hash of one hashimoto run.
pub open spec fn result_of(header: Seq<u8>, nonce: Seq<u8>, full_size: int, cache: Seq<u8>) -> Seq<
    u8,
> {
    keccak256_of(seed_digest(header, nonce) + mix_digest_of(header, nonce, full_size, cache))
}

/// A dataset size and cache that the mixer accepts.
pub open spec fn valid_dataset_params(full_size: int, cache_len: int) -> bool {
    full_size >= MIX_BYTES && full_size % (MIX_BYTES as int) == 0 && valid_cache_size(cache_len)
}

/// Computes `fnv`.
pub fn fnv_hash(a: u32, b: u32) -> (r: u32)
    ensures
        r == fnv(a, b),
{
    ((((a as u64) * FNV_PRIME) % 4294967296u64) as u32) ^ b
}

fn words_from(s: &[u8], off: usize, len: usize) -> (r: Vec<u32>)
    requires
        len % 4 == 0,
        off + len <= s@.len(),
    ensures
        r@ == words_of(s@.subrange(off as int, off + len)),
{
    let ghost sub = s@.subrange(off as int, off + len);
    let slen = s.len();
    let mut r: Vec<u32> = Vec::with_capacity(len / 4);
    let mut k: usize = 0;
    while k < len / 4
        invariant
            k <= len / 4,
            off + len <= s@.len(),
            s@.len() == slen,
            sub == s@.subrange(off as int, off + len),
            r@ =~= Seq::new(k as nat, |t: int| le_u32_at(sub, 4 * t) as u32),
        decreases len / 4 - k,
    {
        let w = read_le_u32(s, off + 4 * k);
        assert(le_u32_at(sub, 4 * k) == le_u32_at(s@, off + 4 * k));
        r.push(w);
        k = k + 1;
    }
    r
}

fn bytes_from(w: &Vec<u32>) -> (r: Vec<u8>)
    requires
        w@.len() <= 64,
    ensures
        r@ == bytes_of(w@),
{
    let mut r: Vec<u8> = Vec::with_capacity(4 * w.len());
    let mut k: usize = 0;
    while k < w.len()
        invariant
            k <= w@.len() <= 64,
            r@.len() == 4 * k,
            forall|t: int| 0 <= t < 4 * k ==> #[trigger] r@[t] == le_byte(w@[t / 4], t % 4),
        decreases w@.len() - k,
    {
        let x = w[k];
        r.push((x % 256) as u8);
        r.push(((x / 256) % 256) as u8);
        r.push(((x / 65536) % 256) as u8);
        r.push(((x / 16777216) % 256) as u8);
        k = k + 1;
    }
    assert(r@ =~= bytes_of(w@));
    r
}

fn fnv_mix_into(mix: &mut Vec<u32>, data: &Vec<u32>)
    requires
        old(mix)@.len() <= data@.len(),
    ensures
        final(mix)@ == fnv_mix(old(mix)@, data@),
{
    let ghost m0 = mix@;
    let mut k: usize = 0;
    while k < mix.len()
        invariant
            k <= mix@.len(),
            mix@.len() == m0.len(),
            m0.len() <= data@.len(),
            forall|t: int|
                0 <= t < m0.len() ==> #[trigger] mix@[t] == if t < k {
                    fnv(m0[t], data@[t])
                } else {
                    m0[t]
                },
        decreases m0.len() - k,
    {
        let x = fnv_hash(mix[k], data[k]);
        mix.set(k, x);
        k = k + 1;
    }
    assert(mix@ =~= fnv_mix(m0, data@));
}

/// Computes dataset item `i` from the cache.
pub fn calc_dataset_item(cache: &[u8], i: usize) -> (r: [u8; 64])
    requires
        valid_cache_size(cache@.len() as int),
    ensures
        r@ == dataset_item(cache@, i as int),
{
    let n = cache.len() / HASH_BYTES;
    let start = (i % n) * HASH_BYTES;
    let mut w = words_from(cache, start, 64);
    assert(cache@.subrange(start as int, start + 64) == item(cache@, (i % n) as int));
    let ghost w0 = w@;
    let clen = cache.len();
    let low = ((i as u64) % 4294967296u64) as u32;
    let first = w[0] ^ low;
    w.set(0, first);
    assert(w@ == w0.update(0, w0[0] ^ low32(i as int)));
    let h = keccak_512(bytes_from(&w).as_slice());
    assert(h@.subrange(0, 64) =~= h@);
    let mut mix = words_from(h.as_slice(), 0, 64);
    let ghost mix0 = mix@;
    let mut j: usize = 0;
    while j < DATASET_PARENTS
        invariant
            j <= DATASET_PARENTS,
            n == cache@.len() / 64,
            n > 0,
            cache@.len() == 64 * n,
            clen == cache@.len(),
            low == low32(i as int),
            mix@ == parents_mix(cache@, i as int, mix0, j as nat),
            mix@.len() == 16,
        decreases DATASET_PARENTS - j,
    {
        let f = fnv_hash(low ^ (j as u32), mix[j % 16]);
        let p = (f as usize) % n;
        let data = words_from(cache, p * HASH_BYTES, 64);
        assert(cache@.subrange(64 * p, 64 * p + 64) == item(cache@, p as int));
        fnv_mix_into(&mut mix, &data);
        j = j + 1;
    }
    keccak_512(bytes_from(&mix).as_slice())
}

fn page_words(d0: &[u8; 64], d1: &[u8; 64]) -> (r: Vec<u32>)
    ensures
        r@ == words_of(d0@ + d1@),
{
    let ghost both = d0@ + d1@;
    let mut r: Vec<u32> = Vec::with_capacity(32);
    let mut k: usize = 0;
    while k < 32
        invariant
            k <= 32,
            both == d0@ + d1@,
            r@ =~= Seq::new(k as nat, |t: int| le_u32_at(both, 4 * t) as u32),
        decreases 32 - k,
    {
        let w = if k < 16 {
            read_le_u32(d0.as_slice(), 4 * k)
        } else {
            read_le_u32(d1.as_slice(), 4 * (k - 16))
        };
        r.push(w);
        k = k + 1;
    }
    assert(r@ =~= words_of(both));
    r
}

fn to_array32(v: &Vec<u8>) -> (r: [u8; 32])
    requires
        v@.len() == 32,
    ensures
        r@ == v@,
{
    let mut r: [u8; 32] = [0u8; 32];
    let mut k: usize = 0;
    while k < 32
        invariant
            k <= 32,
            v@.len() == 32,
            forall|t: int| 0 <= t < k ==> #[trigger] r@[t] == v@[t],
        decreases 32 - k,
    {
        r[k] = v[k];
        k = k + 1;
    }
    assert(r@ =~= v@);
    r
}

/// Runs hashimoto over a cache: returns the mix digest and the result hash.
pub fn hashimoto_light(header: &[u8; 32], nonce: &[u8; 8], full_size: usize, cache: &[u8]) -> (r:
    Result<([u8; 32], [u8; 32]), EthashError>)
    ensures
        valid_dataset_params(full_size as int, cache@.len() as int) ==> (r matches Ok(p) && p.0@
            == mix_digest_of(header@, nonce@, full_size as int, cache@) && p.1@ == result_of(
            header@,
            nonce@,
            full_size as int,
            cache@,
        )),
        !valid_dataset_params(full_size as int, cache@.len() as int) ==> r == Err::<
            ([u8; 32], [u8; 32]),
            EthashError,
        >(EthashError::InvalidDatasetParameters),
{
    if full_size < MIX_BYTES || full_size % MIX_BYTES != 0 || cache.len() == 0 || cache.len()
        % HASH_BYTES != 0 {
        return Err(EthashError::InvalidDatasetParameters);
    }
    let mut input: Vec<u8> = Vec::with_capacity(40);
    let mut k: usize = 0;
    while k < 32
        invariant
            k <= 32,
            input@ =~= header@.subrange(0, k as int),
        decreases 32 - k,
    {
        input.push(header[k]);
        k = k + 1;
    }
    let mut k: usize = 0;
    while k < 8
        invariant
            k <= 8,
            input@ =~= header@ + nonce_le(nonce@).subrange(0, k as int),
        decreases 8 - k,
    {
        input.push(nonce[7 - k]);
        k = k + 1;
    }
    assert(input@ =~= header@ + nonce_le(nonce@));
    let s = keccak_512(input.as_slice());
    assert(s@.subrange(0, 64) =~= s@);
    let sw = words_from(s.as_slice(), 0, 64);
    let mut mix: Vec<u32> = Vec::with_capacity(32);
    let mut k: usize = 0;
    while k < 32
        invariant
            k <= 32,
            sw@.len() == 16,
            mix@ =~= (sw@ + sw@).subrange(0, k as int),
        decreases 32 - k,
    {
        mix.push(sw[k % 16]);
        k = k + 1;
    }
    let ghost mix0 = mix@;
    assert(mix0 =~= sw@ + sw@);
    let rows = full_size / MIX_BYTES;
    let mut a: usize = 0;
    while a < ACCESSES
        invariant
            a <= ACCESSES,
            sw@.len() == 16,
            rows == full_size / 128,
            rows > 0,
            valid_cache_size(cache@.len() as int),
            mix@.len() == 32,
            mix@ == mix_accesses(cache@, full_size as int, sw@[0], mix0, a as nat),
        decreases ACCESSES - a,
    {
        let p = ((fnv_hash((a as u32) ^ sw[0], mix[a % 32]) as usize) % rows) * 2;
        let d0 = calc_dataset_item(cache, p);
        let d1 = calc_dataset_item(cache, p + 1);
        let data = page_words(&d0, &d1);
        fnv_mix_into(&mut mix, &data);
        a = a + 1;
    }
    let mut cmix: Vec<u32> = Vec::with_capacity(8);
    let mut k: usize = 0;
    while k < 8
        invariant
            k <= 8,
            mix@.len() == 32,
            cmix@ =~= compress(mix@).subrange(0, k as int),
        decreases 8 - k,
    {
        let x = fnv_hash(fnv_hash(fnv_hash(mix[4 * k], mix[4 * k + 1]), mix[4 * k + 2]), mix[4 * k + 3]);
        cmix.push(x);
        k = k + 1;
    }
    assert(cmix@ =~= compress(mix@));
    let digest = bytes_from(&cmix);
    let mut tail: Vec<u8> = Vec::with_capacity(96);
    let mut k: usize = 0;
    while k < 64
        invariant
            k <= 64,
            tail@ =~= s@.subrange(0, k as int),
        decreases 64 - k,
    {
        tail.push(s[k]);
        k = k + 1;
    }
    let mut k: usize = 0;
    while k < 32
        invariant
            k <= 32,
            digest@.len() == 32,
            tail@ =~= s@ + digest@.subrange(0, k as int),
        decreases 32 - k,
    {
        tail.push(digest[k]);
        k = k + 1;
    }
    assert(tail@ =~= s@ + digest@);
    let res = keccak_256(tail.as_slice());
    Ok((to_array32(&digest), res))
}

} // verus!
