use ethash::cache::make_cache;
use ethash::mixer::{calc_dataset_item, fnv_hash, hashimoto_light};
use ethash::params::{get_cache_size, get_full_size, get_seedhash, is_prime, MAX_EPOCH};
use ethash::{BlockNumber, EthashError, EthereumPatch, LightDAG, Patch};
use sha3::Digest;

fn hex32(s: &str) -> [u8; 32] {
    let mut out = [0u8; 32];
    for i in 0..32 {
        out[i] = u8::from_str_radix(&s[2 * i..2 * i + 2], 16).unwrap();
    }
    out
}

type Dag = LightDAG<EthereumPatch>;

#[test]
fn primality_by_trial_division() {
    let primes: Vec<u64> = (0..60).filter(|&x| is_prime(x)).collect();
    assert_eq!(primes, vec![2, 3, 5, 7, 11, 13, 17, 19, 23, 29, 31, 37, 41, 43, 47, 53, 59]);
    assert!(is_prime(262139));
    assert!(!is_prime(262143));
    assert!(!is_prime(1));
}

#[test]
fn epoch_zero_and_one_sizes() {
    assert_eq!(get_cache_size(0), Ok(16776896));
    assert_eq!(get_full_size(0), Ok(1073739904));
    assert_eq!(get_cache_size(1), Ok(16907456));
    assert_eq!(get_full_size(1), Ok(1082130304));
}

#[test]
fn sizes_grow_and_stay_aligned() {
    let mut last_cache = 0usize;
    let mut last_full = 0usize;
    for e in 0..100usize {
        let c = get_cache_size(e).unwrap();
        let f = get_full_size(e).unwrap();
        assert!(c >= last_cache && f >= last_full);
        assert_eq!(c % 64, 0);
        assert_eq!(f % 128, 0);
        assert!(is_prime((c / 64) as u64));
        assert!(is_prime((f / 128) as u64));
        last_cache = c;
        last_full = f;
    }
}

#[test]
fn epoch_beyond_range_is_rejected() {
    assert_eq!(get_cache_size(MAX_EPOCH + 1), Err(EthashError::InvalidEpoch));
    assert_eq!(get_full_size(MAX_EPOCH + 1), Err(EthashError::InvalidEpoch));
    assert!(matches!(Dag::new(u64::MAX), Err(EthashError::InvalidEpoch)));
}

#[test]
fn seed_chain() {
    assert_eq!(get_seedhash(0), [0u8; 32]);
    assert_eq!(
        get_seedhash(1),
        hex32("290decd9548b62a8d60345a988386fc84ba6bc95484008f6362f93160ef3e563")
    );
    let mut s = [0u8; 32];
    for e in 0..5usize {
        assert_eq!(get_seedhash(e), s);
        s = sha3::Keccak256::digest(s).into();
    }
}

#[test]
fn fnv_combine() {
    assert_eq!(fnv_hash(0, 5), 5);
    assert_eq!(fnv_hash(1, 0), 0x01000193);
    assert_eq!(fnv_hash(0xffff_ffff, 0), 0xfeff_fe6d);
}

#[test]
fn cache_size_must_be_whole_items() {
    assert_eq!(make_cache(0, &[0u8; 32]), Err(EthashError::InvalidCacheSize));
    assert_eq!(make_cache(100, &[0u8; 32]), Err(EthashError::InvalidCacheSize));
}

#[test]
fn cache_generation_is_deterministic() {
    let a = make_cache(1024, &[0u8; 32]).unwrap();
    let b = make_cache(1024, &[0u8; 32]).unwrap();
    assert_eq!(a.len(), 1024);
    assert_eq!(a, b);
    let c = make_cache(1024, &[1u8; 32]).unwrap();
    assert_ne!(a, c);
    // With one item, every mixing step hashes the item xor itself: 64 zero bytes.
    let single = make_cache(64, &[9u8; 32]).unwrap();
    let zero_hash: [u8; 64] = sha3::Keccak512::digest([0u8; 64]).into();
    assert_eq!(single.as_slice(), &zero_hash[..]);
}

#[test]
fn dataset_items_come_from_the_cache() {
    let cache = make_cache(1024, &[0u8; 32]).unwrap();
    let a = calc_dataset_item(&cache, 0);
    let b = calc_dataset_item(&cache, 0);
    let c = calc_dataset_item(&cache, 1);
    assert_eq!(a, b);
    assert_ne!(a, c);
    assert_ne!(&a[..], &cache[0..64]);
}

#[test]
fn hashimoto_reference_vector() {
    let cache = make_cache(1024, &[0u8; 32]).unwrap();
    let hash = hex32("c9149cc0386e689d789a1c2f3d5d169a61a6218ed30e74414dc736e442ef3d1f");
    let (digest, result) = hashimoto_light(&hash, &[0u8; 8], 32 * 1024, &cache).unwrap();
    assert_eq!(digest, hex32("e4073cffaef931d37117cefd9afd27ea0f1cad6a981dd2605c4a1ac97c519800"));
    assert_eq!(result, hex32("d3539235ee2e6f8db665c0a72169f55b7f6c605712330b778ec3944f0eb5a557"));
}

#[test]
fn hashimoto_is_sensitive_to_inputs() {
    let cache = make_cache(1024, &[0u8; 32]).unwrap();
    let hash = [7u8; 32];
    let nonce = [3u8; 8];
    let (d0, r0) = hashimoto_light(&hash, &nonce, 32 * 1024, &cache).unwrap();
    let (d1, r1) = hashimoto_light(&hash, &nonce, 32 * 1024, &cache).unwrap();
    assert_eq!((d0, r0), (d1, r1));
    let mut hash2 = hash;
    hash2[0] ^= 1;
    let (_, r2) = hashimoto_light(&hash2, &nonce, 32 * 1024, &cache).unwrap();
    assert_ne!(r0, r2);
    let mut nonce2 = nonce;
    nonce2[7] ^= 0x80;
    let (_, r3) = hashimoto_light(&hash, &nonce2, 32 * 1024, &cache).unwrap();
    assert_ne!(r0, r3);
}

#[test]
fn hashimoto_rejects_bad_parameters() {
    let cache = make_cache(1024, &[0u8; 32]).unwrap();
    let h = [0u8; 32];
    let n = [0u8; 8];
    assert_eq!(hashimoto_light(&h, &n, 100, &cache), Err(EthashError::InvalidDatasetParameters));
    assert_eq!(hashimoto_light(&h, &n, 0, &cache), Err(EthashError::InvalidDatasetParameters));
    assert_eq!(hashimoto_light(&h, &n, 1024, &[]), Err(EthashError::InvalidDatasetParameters));
    assert_eq!(
        hashimoto_light(&h, &n, 1024, &cache[..100]),
        Err(EthashError::InvalidDatasetParameters)
    );
}

#[test]
fn epoch_length_of_main_network() {
    assert_eq!(EthereumPatch::epoch_length(), 30000);
}

#[test]
fn from_cache_checks_epoch_and_length() {
    let size = get_cache_size(0).unwrap();
    let dag = Dag::from_cache(vec![0u8; size], BlockNumber::from_u64(29999)).unwrap();
    assert_eq!(dag.epoch, 0);
    assert_eq!(dag.full_size, 1073739904);
    assert_eq!(dag.cache.len(), size);
    assert!(matches!(
        Dag::from_cache(vec![0u8; 64], BlockNumber::from_u64(0)),
        Err(EthashError::InvalidCacheSize)
    ));
    assert!(matches!(
        Dag::from_cache(vec![0u8; size], BlockNumber([0, 0, 1, 0])),
        Err(EthashError::InvalidEpoch)
    ));
}

#[test]
fn membership_flips_at_epoch_boundary() {
    let size = get_cache_size(0).unwrap();
    let dag = Dag::from_cache(vec![0u8; size], BlockNumber::from_u64(0)).unwrap();
    assert!(dag.is_valid_for(BlockNumber::from_u64(0)));
    assert!(dag.is_valid_for(BlockNumber::from_u64(29999)));
    assert!(!dag.is_valid_for(BlockNumber::from_u64(30000)));
    assert!(!dag.is_valid_for(BlockNumber([0, 1, 0, 0])));
    assert!(!dag.is_valid_for(BlockNumber([0, 0, 0, 1])));
    let size1 = get_cache_size(1).unwrap();
    let dag1 = Dag::from_cache(vec![0u8; size1], BlockNumber::from_u64(30000)).unwrap();
    assert_eq!(dag1.epoch, 1);
    assert!(dag1.is_valid_for(BlockNumber::from_u64(59999)));
    assert!(!dag1.is_valid_for(BlockNumber::from_u64(29999)));
    assert!(!dag1.is_valid_for(BlockNumber::from_u64(60000)));
}

#[test]
fn rebuilt_dag_matches_original_dag() {
    let size = get_cache_size(0).unwrap();
    let mut bytes = vec![0u8; size];
    let seed_part = make_cache(1024, &get_seedhash(0)).unwrap();
    for (i, b) in bytes.iter_mut().enumerate() {
        *b = seed_part[i % 1024] ^ (i as u8);
    }
    let first = Dag::from_cache(bytes.clone(), BlockNumber::from_u64(12345)).unwrap();
    let hash = [0x11u8; 32];
    let nonce = [0x22u8; 8];
    let out = first.hashimoto(hash, nonce);
    let restored = Dag::from_cache(first.cache.clone(), BlockNumber::from_u64(12345)).unwrap();
    assert_eq!(restored.hashimoto(hash, nonce), out);
    assert_eq!(first.hashimoto(hash, nonce), out);
    assert_eq!(hashimoto_light(&hash, &nonce, first.full_size, &bytes).unwrap(), out);
    let other = first.hashimoto(hash, [0x23u8; 8]);
    assert_ne!(other.1, out.1);
}
