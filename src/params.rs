//! Per-epoch parameters: cache size, dataset size and seed.
use crate::error::EthashError;
use crate::hash::{keccak256_of, keccak_256};
use vstd::prelude::*;

verus! {

/// Bytes in one cache item (and in one dataset item).
pub const HASH_BYTES: usize = 64;
/// Bytes in one page of the virtual dataset read by one mixer access.
pub const MIX_BYTES: usize = 128;
/// Cache size at epoch zero, before adjustment.
pub const CACHE_BYTES_INIT: u64 = 16777216;
/// Cache growth per epoch, before adjustment.
pub const CACHE_BYTES_GROWTH: u64 = 131072;
/// Dataset size at epoch zero, before adjustment.
pub const DATASET_BYTES_INIT: u64 = 1073741824;
/// Dataset growth per epoch, before adjustment.
pub const DATASET_BYTES_GROWTH: u64 = 8388608;
/// The largest epoch whose parameters this library computes.
pub const MAX_EPOCH: usize = 4294967295;

/// `x` is a prime number.
pub open spec fn is_prime_spec(x: int) -> bool {
    x >= 2 && forall|d: int| 2 <= d < x ==> #[trigger] (x % d) != 0
}

/// Steps down from `q` by two until the value is prime (or reaches 3 or less).
pub open spec fn prime_at_or_below(q: int) -> int
    decreases q,
{
    if q <= 3 || is_prime_spec(q) {
        q
    } else {
        prime_at_or_below(q - 2)
    }
}

/// Item count candidate from which the cache size of `epoch` is adjusted.
pub open spec fn cache_items_start(epoch: int) -> int {
    (CACHE_BYTES_INIT + CACHE_BYTES_GROWTH * epoch) / (HASH_BYTES as int) - 1
}

/// Page count candidate from which the dataset size of `epoch` is adjusted.
pub open spec fn full_pages_start(epoch: int) -> int {
    (DATASET_BYTES_INIT + DATASET_BYTES_GROWTH * epoch) / (MIX_BYTES as int) - 1
}

/// Cache size in bytes of `epoch`: a prime number of 64-byte items.
pub open spec fn cache_size(epoch: int) -> int {
    HASH_BYTES * prime_at_or_below(cache_items_start(epoch))
}

/// Full dataset size in bytes of `epoch`: a prime number of 128-byte pages.
pub open spec fn full_size(epoch: int) -> int {
    MIX_BYTES * prime_at_or_below(full_pages_start(epoch))
}

/// Seed of `epoch`: 32 zero bytes, hashed once with Keccak-256 per epoch.
pub open spec fn seed_of(epoch: nat) -> Seq<u8>
    decreases epoch,
{
    if epoch == 0 {
        Seq::new(32, |i: int| 0u8)
    } else {
        keccak256_of(seed_of((epoch - 1) as nat))
    }
}

proof fn lemma_no_small_divisor_beyond(x: int, d: int, k: int)
    requires
        2 <= d,
        x < d * d,
        d <= k < x,
        forall|j: int| 2 <= j < d ==> #[trigger] (x % j) != 0,
    ensures
        x % k != 0,
{
    if x % k == 0 {
        let m = x / k;
        assert(x == k * m) by (nonlinear_arith)
            requires
                x % k == 0,
                m == x / k,
                k > 0,
        ;
        assert(2 <= m < d) by (nonlinear_arith)
            requires
                x == k * m,
                d <= k < x,
                x < d * d,
                2 <= d,
        ;
        assert(x % m == 0) by (nonlinear_arith)
            requires
                x == k * m,
                m > 0,
        ;
    }
}

/// Tests primality by trial division up to the square root.
pub fn is_prime(x: u64) -> (r: bool)
    ensures
        r == is_prime_spec(x as int),
{
    if x < 2 {
        return false;
    }
    let mut d: u64 = 2;
    while d <= x / d
        invariant
            2 <= d <= x,
            forall|j: int| 2 <= j < d ==> #[trigger] ((x as int) % j) != 0,
        decreases x - d,
    {
        if x % d == 0 {
            assert(d < x) by (nonlinear_arith)
                requires
                    d <= x / d,
                    d >= 2,
            ;
            assert(((x as int) % (d as int)) == 0);
            return false;
        }
        assert(d + 1 <= x) by (nonlinear_arith)
            requires
                d <= x / d,
                d >= 2,
        ;
        d = d + 1;
    }
    assert(x < d * d) by (nonlinear_arith)
        requires
            d > x / d,
            d >= 2,
    ;
    assert forall|k: int| 2 <= k < x implies #[trigger] ((x as int) % k) != 0 by {
        if k >= d {
            lemma_no_small_divisor_beyond(x as int, d as int, k);
        }
    }
    true
}

proof fn lemma_three_is_prime()
    ensures
        is_prime_spec(3),
{
    assert forall|d: int| 2 <= d < 3 implies #[trigger] (3int % d) != 0 by {
        assert(d == 2);
    }
}

/// Adjusts an odd candidate down to the value that `prime_at_or_below` gives.
fn descend_to_prime(start: u64) -> (r: u64)
    requires
        start >= 3,
        start % 2 == 1,
    ensures
        r as int == prime_at_or_below(start as int),
        3 <= r <= start,
        is_prime_spec(r as int),
{
    let mut q = start;
    while !is_prime(q)
        invariant
            3 <= q <= start,
            q % 2 == 1,
            prime_at_or_below(q as int) == prime_at_or_below(start as int),
        decreases q,
    {
        proof {
            lemma_three_is_prime();
        }
        q = q - 2;
    }
    q
}

/// Cache size in bytes of `epoch`.
pub fn get_cache_size(epoch: usize) -> (r: Result<usize, EthashError>)
    ensures
        epoch <= MAX_EPOCH && cache_size(epoch as int) <= usize::MAX ==> r == Ok::<usize, EthashError>(
            cache_size(epoch as int) as usize,
        ),
        epoch > MAX_EPOCH || cache_size(epoch as int) > usize::MAX ==> r == Err::<usize, EthashError>(
            EthashError::InvalidEpoch,
        ),
{
    if epoch > MAX_EPOCH {
        return Err(EthashError::InvalidEpoch);
    }
    let start = (CACHE_BYTES_INIT + CACHE_BYTES_GROWTH * (epoch as u64)) / (HASH_BYTES as u64) - 1;
    let q = descend_to_prime(start);
    if q > (usize::MAX as u64) / (HASH_BYTES as u64) {
        return Err(EthashError::InvalidEpoch);
    }
    Ok((q * (HASH_BYTES as u64)) as usize)
}

/// Full dataset size in bytes of `epoch`.
pub fn get_full_size(epoch: usize) -> (r: Result<usize, EthashError>)
    ensures
        epoch <= MAX_EPOCH && full_size(epoch as int) <= usize::MAX ==> r == Ok::<usize, EthashError>(
            full_size(epoch as int) as usize,
        ),
        epoch > MAX_EPOCH || full_size(epoch as int) > usize::MAX ==> r == Err::<usize, EthashError>(
            EthashError::InvalidEpoch,
        ),
{
    if epoch > MAX_EPOCH {
        return Err(EthashError::InvalidEpoch);
    }
    let start = (DATASET_BYTES_INIT + DATASET_BYTES_GROWTH * (epoch as u64)) / (MIX_BYTES as u64)
        - 1;
    let q = descend_to_prime(start);
    if q > (usize::MAX as u64) / (MIX_BYTES as u64) {
        return Err(EthashError::InvalidEpoch);
    }
    Ok((q * (MIX_BYTES as u64)) as usize)
}

/// Seed of `epoch`, computed by hashing along the chain from epoch zero.
pub fn get_seedhash(epoch: usize) -> (r: [u8; 32])
    ensures
        r@ == seed_of(epoch as nat),
{
    let mut s: [u8; 32] = [0u8; 32];
    assert(s@ =~= seed_of(0));
    let mut i: usize = 0;
    while i < epoch
        invariant
            i <= epoch,
            s@ == seed_of(i as nat),
        decreases epoch - i,
    {
        s = keccak_256(&s);
        i = i + 1;
    }
    s
}

proof fn lemma_prime_floor_bounds(q: int)
    requires
        q >= 3,
        q % 2 == 1,
    ensures
        3 <= prime_at_or_below(q) <= q,
    decreases q,
{
    if !(q <= 3 || is_prime_spec(q)) {
        lemma_prime_floor_bounds(q - 2);
    }
}

/// Both sizes of an epoch are positive multiples of their item sizes.
pub proof fn lemma_size_alignment(epoch: int)
    requires
        epoch >= 0,
    ensures
        cache_size(epoch) > 0,
        cache_size(epoch) % 64 == 0,
        full_size(epoch) >= 128,
        full_size(epoch) % 128 == 0,
{
    assert(cache_items_start(epoch) == 262143 + 2048 * epoch);
    assert(full_pages_start(epoch) == 8388607 + 65536 * epoch);
    lemma_prime_floor_bounds(cache_items_start(epoch));
    lemma_prime_floor_bounds(full_pages_start(epoch));
}

proof fn lemma_prime_floor_monotone(a: int, b: int)
    requires
        3 <= a <= b,
        a % 2 == 1,
        b % 2 == 1,
    ensures
        prime_at_or_below(a) <= prime_at_or_below(b),
    decreases b,
{
    lemma_prime_floor_bounds(a);
    if a < b && !(b <= 3 || is_prime_spec(b)) {
        lemma_prime_floor_monotone(a, b - 2);
    }
}

/// Neither size ever shrinks from one epoch to a later one.
pub proof fn lemma_sizes_monotone(e1: int, e2: int)
    requires
        0 <= e1 <= e2,
    ensures
        cache_size(e1) <= cache_size(e2),
        full_size(e1) <= full_size(e2),
{
    assert(cache_items_start(e1) == 262143 + 2048 * e1);
    assert(cache_items_start(e2) == 262143 + 2048 * e2);
    assert(full_pages_start(e1) == 8388607 + 65536 * e1);
    assert(full_pages_start(e2) == 8388607 + 65536 * e2);
    lemma_prime_floor_monotone(cache_items_start(e1), cache_items_start(e2));
    lemma_prime_floor_monotone(full_pages_start(e1), full_pages_start(e2));
}

/// `s` hashed `k` times with Keccak-256.
pub open spec fn hash_iterate(s: Seq<u8>, k: nat) -> Seq<u8>
    decreases k,
{
    if k == 0 {
        s
    } else {
        keccak256_of(hash_iterate(s, (k - 1) as nat))
    }
}

/// The seed of epoch zero is 32 zero bytes, each later seed is the hash of the
/// one before, and walking `b` further steps from the seed of `a` reaches the
/// seed of `a + b`.
pub proof fn lemma_seed_chain(a: nat, b: nat)
    ensures
        seed_of(0) == Seq::new(32, |i: int| 0u8),
        a >= 1 ==> seed_of(a) == keccak256_of(seed_of((a - 1) as nat)),
        seed_of(a + b) == hash_iterate(seed_of(a), b),
    decreases b,
{
    if b > 0 {
        lemma_seed_chain(a, (b - 1) as nat);
        assert(seed_of(a + b) == keccak256_of(seed_of((a + b - 1) as nat)));
        assert((a + b - 1) as nat == a + (b - 1) as nat);
    }
}

} // verus!
