//! Cache generation: a hash chain of 64-byte items, then rounds of
//! in-place mixing in which each item is rehashed from its predecessor and a
//! pseudorandomly chosen partner.
use crate::error::EthashError;
use crate::hash::{keccak512_of, keccak_512};
use crate::params::HASH_BYTES;
use vstd::prelude::*;

verus! {

/// Mixing rounds run over the cache after the initial hash chain.
pub const CACHE_ROUNDS: usize = 3;

/// Item `i` (64 bytes) of a flat buffer of items.
pub open spec fn item(buf: Seq<u8>, i: int) -> Seq<u8> {
    buf.subrange(64 * i, 64 * i + 64)
}

/// The little-endian 32-bit word at byte offset `off`.
pub open spec fn le_u32_at(s: Seq<u8>, off: int) -> int {
    s[off] + 256 * s[off + 1] + 65536 * s[off + 2] + 16777216 * s[off + 3]
}

/// Item `i` of the initial hash chain: the seed hashed `i + 1` times with Keccak-512.
pub open spec fn chain_item(seed: Seq<u8>, i: nat) -> Seq<u8>
    decreases i,
{
    if i == 0 {
        keccak512_of(seed)
    } else {
        keccak512_of(chain_item(seed, (i - 1) as nat))
    }
}

/// The first `k` chain items, laid out one after another.
pub open spec fn chain_bytes(seed: Seq<u8>, k: nat) -> Seq<u8>
    decreases k,
{
    if k == 0 {
        Seq::empty()
    } else {
        chain_bytes(seed, (k - 1) as nat) + chain_item(seed, (k - 1) as nat)
    }
}

/// Byte-wise exclusive or of two 64-byte items.
pub open spec fn xor_items(a: Seq<u8>, b: Seq<u8>) -> Seq<u8> {
    Seq::new(64, |j: int| a[j] ^ b[j])
}

/// `buf` with item `i` replaced by `it`.
pub open spec fn replace_item(buf: Seq<u8>, i: int, it: Seq<u8>) -> Seq<u8> {
    buf.subrange(0, 64 * i) + it + buf.subrange(64 * i + 64, buf.len() as int)
}

/// One mixing step on item `i` of an `n`-item buffer: the item becomes the
/// hash of its predecessor xor the item its own first word points at.
pub open spec fn mix_step(buf: Seq<u8>, n: int, i: int) -> Seq<u8> {
    let v = le_u32_at(buf, 64 * i) % n;
    let prev = (i + n - 1) % n;
    replace_item(buf, i, keccak512_of(xor_items(item(buf, prev), item(buf, v))))
}

/// Mixing steps on items `0 .. k`, in order.
pub open spec fn mix_pass(buf: Seq<u8>, n: int, k: nat) -> Seq<u8>
    decreases k,
{
    if k == 0 {
        buf
    } else {
        mix_step(mix_pass(buf, n, (k - 1) as nat), n, k - 1)
    }
}

/// `r` full mixing passes over an `n`-item buffer.
pub open spec fn mix_rounds(buf: Seq<u8>, n: int, r: nat) -> Seq<u8>
    decreases r,
{
    if r == 0 {
        buf
    } else {
        mix_pass(mix_rounds(buf, n, (r - 1) as nat), n, n as nat)
    }
}

/// The cache of `n` items derived from `seed`.
pub open spec fn cache_bytes(seed: Seq<u8>, n: nat) -> Seq<u8> {
    mix_rounds(chain_bytes(seed, n), n as int, CACHE_ROUNDS as nat)
}

/// A cache size that the generator accepts: a positive number of whole items.
pub open spec fn valid_cache_size(size: int) -> bool {
    size > 0 && size % (HASH_BYTES as int) == 0
}

/// Reads the little-endian 32-bit word at byte offset `off`.
pub fn read_le_u32(s: &[u8], off: usize) -> (r: u32)
    requires
        off + 4 <= s@.len(),
    ensures
        r as int == le_u32_at(s@, off as int),
{
    (s[off] as u32) + (s[off + 1] as u32) * 256 + (s[off + 2] as u32) * 65536 + (s[off + 3] as u32)
        * 16777216
}

fn push_item(buf: &mut Vec<u8>, it: &[u8; 64])
    ensures
        final(buf)@ == old(buf)@ + it@,
{
    let ghost start = buf@;
    let mut j: usize = 0;
    while j < 64
        invariant
            j <= 64,
            buf@ == start + it@.subrange(0, j as int),
        decreases 64 - j,
    {
        buf.push(it[j]);
        j = j + 1;
        assert(buf@ =~= start + it@.subrange(0, j as int));
    }
    assert(it@.subrange(0, 64) =~= it@);
}

fn mix_one(buf: &mut Vec<u8>, n: usize, i: usize)
    requires
        old(buf)@.len() == 64 * n,
        i < n,
    ensures
        final(buf)@ == mix_step(old(buf)@, n as int, i as int),
        final(buf)@.len() == 64 * n,
{
    let ghost b0 = buf@;
    let len = buf.len();
    assert(64 * n <= usize::MAX);
    let v = (read_le_u32(buf.as_slice(), 64 * i) as usize) % n;
    let prev = (i + n - 1) % n;
    let mut x: Vec<u8> = Vec::with_capacity(64);
    let mut j: usize = 0;
    while j < 64
        invariant
            j <= 64,
            buf@ == b0,
            b0.len() == 64 * n,
            prev < n,
            v < n,
            64 * n <= usize::MAX,
            x@ =~= Seq::new(j as nat, |k: int| b0[64 * prev + k] ^ b0[64 * v + k]),
        decreases 64 - j,
    {
        x.push(buf[64 * prev + j] ^ buf[64 * v + j]);
        j = j + 1;
    }
    assert(x@ =~= xor_items(item(b0, prev as int), item(b0, v as int)));
    let h = keccak_512(x.as_slice());
    let mut j: usize = 0;
    while j < 64
        invariant
            j <= 64,
            i < n,
            64 * n <= usize::MAX,
            buf@.len() == b0.len(),
            b0.len() == 64 * n,
            forall|k: int|
                0 <= k < b0.len() ==> #[trigger] buf@[k] == if 64 * i <= k < 64 * i + j {
                    h@[k - 64 * i]
                } else {
                    b0[k]
                },
        decreases 64 - j,
    {
        buf.set(64 * i + j, h[j]);
        j = j + 1;
    }
    assert(buf@ =~= replace_item(b0, i as int, h@));
}

/// Builds the cache of `cache_size` bytes from `seed`.
pub fn make_cache(cache_size: usize, seed: &[u8; 32]) -> (r: Result<Vec<u8>, EthashError>)
    ensures
        valid_cache_size(cache_size as int) ==> (r matches Ok(c) && c@ == cache_bytes(
            seed@,
            (cache_size / HASH_BYTES) as nat,
        ) && c@.len() == cache_size),
        !valid_cache_size(cache_size as int) ==> r == Err::<Vec<u8>, EthashError>(
            EthashError::InvalidCacheSize,
        ),
{
    if cache_size == 0 || cache_size % HASH_BYTES != 0 {
        return Err(EthashError::InvalidCacheSize);
    }
    let n = cache_size / HASH_BYTES;
    let mut cache: Vec<u8> = Vec::with_capacity(cache_size);
    let mut last = keccak_512(seed.as_slice());
    push_item(&mut cache, &last);
    assert(chain_bytes(seed@, 0) =~= Seq::empty());
    assert(cache@ =~= chain_bytes(seed@, 1));
    let mut i: usize = 1;
    while i < n
        invariant
            1 <= i <= n,
            n == cache_size / HASH_BYTES,
            cache@ == chain_bytes(seed@, i as nat),
            cache@.len() == 64 * i,
            last@ == chain_item(seed@, (i - 1) as nat),
        decreases n - i,
    {
        last = keccak_512(last.as_slice());
        push_item(&mut cache, &last);
        i = i + 1;
    }
    let ghost init = cache@;
    let mut r: usize = 0;
    while r < CACHE_ROUNDS
        invariant
            r <= CACHE_ROUNDS,
            n > 0,
            cache@ == mix_rounds(init, n as int, r as nat),
            cache@.len() == 64 * n,
        decreases CACHE_ROUNDS - r,
    {
        let mut i: usize = 0;
        while i < n
            invariant
                i <= n,
                cache@ == mix_pass(mix_rounds(init, n as int, r as nat), n as int, i as nat),
                cache@.len() == 64 * n,
            decreases n - i,
        {
            mix_one(&mut cache, n, i);
            i = i + 1;
        }
        r = r + 1;
    }
    Ok(cache)
}

} // verus!
