//! One epoch's light-client state: its cache and dataset size, with the
//! epoch-membership query.
use crate::cache::{cache_bytes, make_cache};
use crate::error::EthashError;
use crate::mixer::{hashimoto_light, mix_digest_of, result_of};
use crate::params::{
    cache_size, full_size, get_cache_size, get_full_size, get_seedhash, lemma_size_alignment,
    seed_of, HASH_BYTES, MAX_EPOCH,
};
use core::marker::PhantomData;
use vstd::prelude::*;

verus! {

/// Network variant: supplies the epoch length in blocks.
pub trait Patch {
    /// The epoch length in blocks.
    spec fn epoch_len() -> int;

    /// The epoch length in blocks; never zero.
    fn epoch_length() -> (r: u64)
        ensures
            r as int == Self::epoch_len(),
            r > 0,
    ;
}

/// The main Ethereum network: epochs of 30000 blocks.
pub struct EthereumPatch;

impl Patch for EthereumPatch {
    open spec fn epoch_len() -> int {
        30000
    }

    fn epoch_length() -> (r: u64) {
        30000
    }
}

/// A 256-bit unsigned block number as four little-endian 64-bit limbs.
#[derive(Debug, Clone, Copy)]
pub struct BlockNumber(pub [u64; 4]);

impl View for BlockNumber {
    type V = nat;

    open spec fn view(&self) -> nat {
        (self.0[0] + self.0[1] * 0x1_0000_0000_0000_0000 + self.0[2]
            * 0x1_0000_0000_0000_0000_0000_0000_0000_0000 + self.0[3]
            * 0x1_0000_0000_0000_0000_0000_0000_0000_0000_0000_0000_0000_0000) as nat
    }
}

impl BlockNumber {
    /// The block number `n`.
    pub fn from_u64(n: u64) -> (r: BlockNumber)
        ensures
            r@ == n,
    {
        BlockNumber([n, 0, 0, 0])
    }
}

/// The epoch of block `n` under patch `P`.
pub open spec fn block_epoch<P: Patch>(n: int) -> int {
    n / P::epoch_len()
}

/// The first block of an epoch belongs to it, and the block before it to the
/// previous epoch.
pub proof fn lemma_epoch_boundary<P: Patch>(epoch: nat)
    requires
        P::epoch_len() > 0,
    ensures
        block_epoch::<P>((epoch + 1) * P::epoch_len()) == epoch + 1,
        block_epoch::<P>((epoch + 1) * P::epoch_len() - 1) == epoch,
{
    let l = P::epoch_len();
    let e = epoch as int;
    assert(((e + 1) * l) / l == e + 1) by (nonlinear_arith)
        requires
            l > 0,
    ;
    assert(((e + 1) * l - 1) / l == e) by (nonlinear_arith)
        requires
            l > 0,
            e >= 0,
    ;
}

/// An epoch whose cache and dataset sizes this library represents.
pub open spec fn epoch_in_range(epoch: int) -> bool {
    0 <= epoch <= MAX_EPOCH && cache_size(epoch) <= usize::MAX && full_size(epoch) <= usize::MAX
}

/// The cache generated for `epoch`.
pub open spec fn generated_cache(epoch: int) -> Seq<u8> {
    cache_bytes(seed_of(epoch as nat), (cache_size(epoch) / (HASH_BYTES as int)) as nat)
}

/// Computes the epoch of block `number` where it fits in a `usize`.
fn epoch_of<P: Patch>(number: &BlockNumber) -> (r: Option<usize>)
    ensures
        P::epoch_len() > 0,
        block_epoch::<P>(number@ as int) <= usize::MAX ==> r == Some(
            block_epoch::<P>(number@ as int) as usize,
        ),
        block_epoch::<P>(number@ as int) > usize::MAX ==> r is None,
{
    let l = P::epoch_length();
    let ghost v = number@ as int;
    if number.0[2] != 0 || number.0[3] != 0 {
        assert(v >= 0x1_0000_0000_0000_0000_0000_0000_0000_0000);
        assert(v / (l as int) >= 0x1_0000_0000_0000_0000) by (nonlinear_arith)
            requires
                v >= 0x1_0000_0000_0000_0000_0000_0000_0000_0000,
                0 < l < 0x1_0000_0000_0000_0000,
        ;
        return None;
    }
    let n: u128 = (number.0[0] as u128) + (number.0[1] as u128) * 0x1_0000_0000_0000_0000u128;
    let q = n / (l as u128);
    if q > usize::MAX as u128 {
        None
    } else {
        Some(q as usize)
    }
}

/// One epoch's cache together with the epoch's dataset size.
pub struct LightDAG<P: Patch> {
    pub epoch: usize,
    pub cache: Vec<u8>,
    pub full_size: usize,
    pub marker: PhantomData<P>,
}

impl<P: Patch> LightDAG<P> {
    /// The cache length and dataset size are those of the epoch.
    pub open spec fn wf(&self) -> bool {
        epoch_in_range(self.epoch as int) && self.cache@.len() == cache_size(self.epoch as int)
            && self.full_size == full_size(self.epoch as int)
    }

    /// The cache holds exactly what the generator produces for the epoch.
    pub open spec fn generated(&self) -> bool {
        self.cache@ == generated_cache(self.epoch as int)
    }

    /// Builds the state for the epoch of block `number`, generating its cache.
    pub fn new(number: u64) -> (r: Result<Self, EthashError>)
        ensures
            epoch_in_range(block_epoch::<P>(number as int)) ==> (r matches Ok(d) && d.wf() && d.generated()
                && d.epoch as int == block_epoch::<P>(number as int)),
            !epoch_in_range(block_epoch::<P>(number as int)) ==> r matches Err(EthashError::InvalidEpoch),
    {
        let q = number / P::epoch_length();
        if q > MAX_EPOCH as u64 {
            return Err(EthashError::InvalidEpoch);
        }
        let epoch = q as usize;
        let cache_size = match get_cache_size(epoch) {
            Ok(s) => s,
            Err(e) => return Err(e),
        };
        let full_size = match get_full_size(epoch) {
            Ok(s) => s,
            Err(e) => return Err(e),
        };
        let seed = get_seedhash(epoch);
        proof {
            lemma_size_alignment(epoch as int);
        }
        match make_cache(cache_size, &seed) {
            Ok(cache) => Ok(LightDAG { epoch, cache, full_size, marker: PhantomData }),
            Err(e) => Err(e),
        }
    }

    /// Mix digest and result hash of `hash` and `nonce` against this epoch's cache.
    pub fn hashimoto(&self, hash: [u8; 32], nonce: [u8; 8]) -> (r: ([u8; 32], [u8; 32]))
        requires
            self.wf(),
        ensures
            r.0@ == mix_digest_of(hash@, nonce@, self.full_size as int, self.cache@),
            r.1@ == result_of(hash@, nonce@, self.full_size as int, self.cache@),
    {
        proof {
            lemma_size_alignment(self.epoch as int);
        }
        match hashimoto_light(&hash, &nonce, self.full_size, self.cache.as_slice()) {
            Ok(p) => p,
            Err(_) => ([0u8; 32], [0u8; 32]),
        }
    }

    /// Whether block `number` falls in this state's epoch.
    pub fn is_valid_for(&self, number: BlockNumber) -> (r: bool)
        ensures
            r == (block_epoch::<P>(number@ as int) == self.epoch as int),
    {
        match epoch_of::<P>(&number) {
            Some(e) => e == self.epoch,
            None => false,
        }
    }

    /// Builds the state for the epoch of block `number` around a cache supplied
    /// by the caller, whose contents are taken as they are.
    pub fn from_cache(cache: Vec<u8>, number: BlockNumber) -> (r: Result<Self, EthashError>)
        ensures
            epoch_in_range(block_epoch::<P>(number@ as int)) && cache@.len() == cache_size(
                block_epoch::<P>(number@ as int),
            ) ==> (r matches Ok(d) && d.wf() && d.cache@ == cache@ && d.epoch as int == block_epoch::<P>(
                number@ as int,
            )),
            !epoch_in_range(block_epoch::<P>(number@ as int)) ==> r matches Err(EthashError::InvalidEpoch),
            epoch_in_range(block_epoch::<P>(number@ as int)) && cache@.len() != cache_size(
                block_epoch::<P>(number@ as int),
            ) ==> r matches Err(EthashError::InvalidCacheSize),
    {
        let epoch = match epoch_of::<P>(&number) {
            Some(e) => e,
            None => return Err(EthashError::InvalidEpoch),
        };
        let cache_size = match get_cache_size(epoch) {
            Ok(s) => s,
            Err(e) => return Err(e),
        };
        let full_size = match get_full_size(epoch) {
            Ok(s) => s,
            Err(e) => return Err(e),
        };
        proof {
            lemma_size_alignment(epoch as int);
        }
        if cache.len() != cache_size {
            return Err(EthashError::InvalidCacheSize);
        }
        Ok(LightDAG { epoch, cache, full_size, marker: PhantomData })
    }
}

/// Two states generated for the same epoch hold the same cache, so hashimoto
/// gives both the same mix digest and result hash for every header and nonce.
pub proof fn lemma_deterministic<P: Patch>(
    a: LightDAG<P>,
    b: LightDAG<P>,
    hash: Seq<u8>,
    nonce: Seq<u8>,
)
    requires
        a.wf(),
        b.wf(),
        a.generated(),
        b.generated(),
        a.epoch == b.epoch,
    ensures
        a.cache@ == b.cache@,
        a.full_size == b.full_size,
        mix_digest_of(hash, nonce, a.full_size as int, a.cache@) == mix_digest_of(
            hash,
            nonce,
            b.full_size as int,
            b.cache@,
        ),
        result_of(hash, nonce, a.full_size as int, a.cache@) == result_of(
            hash,
            nonce,
            b.full_size as int,
            b.cache@,
        ),
{
}

/// A state rebuilt with `from_cache` from the cache that `new` generated for
/// the same block gives the same hashimoto outputs as the generated state.
pub proof fn lemma_from_cache_matches_new<P: Patch>(
    number: u64,
    built: LightDAG<P>,
    restored: LightDAG<P>,
    hash: Seq<u8>,
    nonce: Seq<u8>,
)
    requires
        built.wf(),
        built.generated(),
        built.epoch as int == block_epoch::<P>(number as int),
        restored.wf(),
        restored.cache@ == built.cache@,
        restored.epoch as int == block_epoch::<P>(number as int),
    ensures
        mix_digest_of(hash, nonce, restored.full_size as int, restored.cache@) == mix_digest_of(
            hash,
            nonce,
            built.full_size as int,
            built.cache@,
        ),
        result_of(hash, nonce, restored.full_size as int, restored.cache@) == result_of(
            hash,
            nonce,
            built.full_size as int,
            built.cache@,
        ),
{
}

} // verus!
