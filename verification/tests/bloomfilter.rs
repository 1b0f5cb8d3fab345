//! Bloom filter behaviour: membership, hashing and serialization.

use circuit_psi::bloomfilter::BloomFilter;
use circuit_psi::bytes::u64_to_le_bytes_vec;
use rand::Rng;
use sha2::{Digest, Sha256};

#[test]
fn test_bloom_filter_membership() {
    let mut rng = rand::thread_rng();
    let n = 1000;
    let nhashes = 3;
    let mut filter = BloomFilter::new(n, nhashes);
    for _ in 0..128 {
        let x: [u8; 16] = rng.gen();
        let v = x.to_vec();
        filter.insert(&v);
        assert!(filter.contains(&v));
    }
    assert_eq!(filter, BloomFilter::from_bytes(&filter.as_bytes(), nhashes));
}

#[test]
fn test_bloom_bin_matches_digest() {
    // BloomFilter::bin is the little-endian value of the first eight bytes
    // of SHA-256 over the hash index and the value.
    let value: Vec<u8> = vec![0xde, 0xad, 0xbe, 0xef];
    let hash_index: usize = 7;
    let mut preimage = u64_to_le_bytes_vec(hash_index as u64);
    preimage.extend(&value);
    let digest = Sha256::digest(&preimage);
    let mut expected: u64 = 0;
    for k in 0..8 {
        expected |= (digest[k] as u64) << (8 * k);
    }
    assert_eq!(BloomFilter::bin(&value, hash_index), expected);
}

#[test]
fn test_bloom_new_is_empty() {
    let mut filter = BloomFilter::new(64, 2);
    assert_eq!(filter.len(), 64);
    assert_eq!(filter.nhashes(), 2);
    assert!(filter.bins().iter().all(|b| !b));
    assert!(!filter.contains(&vec![1, 2, 3]));
}

#[test]
fn test_bloom_serialization_round_trip_small() {
    // A filter whose bin count is not a multiple of eight still round-trips.
    let mut filter = BloomFilter::new(13, 2);
    filter.insert(&vec![9, 9, 9]);
    filter.insert(&vec![0]);
    let bytes = filter.as_bytes();
    assert_eq!(bytes.len(), 8 + 2);
    let back = BloomFilter::from_bytes(&bytes, 2);
    assert_eq!(filter, back);
    assert_eq!(back.bins(), filter.bins());
}

#[test]
fn test_bloom_as_bytes_header() {
    let filter = BloomFilter::new(1000, 3);
    let bytes = filter.as_bytes();
    assert_eq!(bytes.len(), 8 + 125);
    let mut size: u64 = 0;
    for k in 0..8 {
        size |= (bytes[k] as u64) << (8 * k);
    }
    assert_eq!(size, 1000);
}
