//! Little-endian byte encoding round trips.

use circuit_psi::bytes::{le_u64_at, u64_to_le_bytes_vec};

#[test]
fn test_le_bytes_round_trip() {
    for v in [0u64, 1, 0xff, 0x0102_0304_0506_0708, u64::MAX] {
        let bytes = u64_to_le_bytes_vec(v);
        assert_eq!(bytes.len(), 8);
        assert_eq!(le_u64_at(&bytes, 0), v);
    }
}

#[test]
fn test_le_bytes_layout() {
    let bytes = u64_to_le_bytes_vec(0x0102_0304_0506_0708);
    assert_eq!(bytes, vec![0x08, 0x07, 0x06, 0x05, 0x04, 0x03, 0x02, 0x01]);
}

#[test]
fn test_le_u64_at_offset() {
    let mut bytes = vec![0xff, 0xff];
    bytes.extend(u64_to_le_bytes_vec(123_456_789));
    assert_eq!(le_u64_at(&bytes, 2), 123_456_789);
}
