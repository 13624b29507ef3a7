use light_merkle_tree::{Blake3, Hasher, HasherError, Keccak, Poseidon, Sha256};

#[test]
fn test_sha256_known_vectors() {
    assert_eq!(
        Sha256::hash(&[]).unwrap(),
        [
            0xe3, 0xb0, 0xc4, 0x42, 0x98, 0xfc, 0x1c, 0x14, 0x9a, 0xfb, 0xf4, 0xc8, 0x99, 0x6f,
            0xb9, 0x24, 0x27, 0xae, 0x41, 0xe4, 0x64, 0x9b, 0x93, 0x4c, 0xa4, 0x95, 0x99, 0x1b,
            0x78, 0x52, 0xb8, 0x55
        ]
    );
    assert_eq!(
        Sha256::hash(b"abc").unwrap(),
        [
            0xba, 0x78, 0x16, 0xbf, 0x8f, 0x01, 0xcf, 0xea, 0x41, 0x41, 0x40, 0xde, 0x5d, 0xae,
            0x22, 0x23, 0xb0, 0x03, 0x61, 0xa3, 0x96, 0x17, 0x7a, 0x9c, 0xb4, 0x10, 0xff, 0x61,
            0xf2, 0x00, 0x15, 0xad
        ]
    );
}

#[test]
fn test_sha256_hashv_concatenates() {
    let split = Sha256::hashv(&[b"ab".as_slice(), b"c".as_slice()]).unwrap();
    let joined = Sha256::hash(b"abc").unwrap();
    assert_eq!(split, joined);
    let split3 = Sha256::hashv(&[b"a".as_slice(), b"b".as_slice(), b"c".as_slice()]).unwrap();
    assert_eq!(split3, joined);
}

#[test]
fn test_keccak_known_vector() {
    assert_eq!(
        Keccak::hash(&[]).unwrap(),
        [
            0xc5, 0xd2, 0x46, 0x01, 0x86, 0xf7, 0x23, 0x3c, 0x92, 0x7e, 0x7d, 0xb2, 0xdc, 0xc7,
            0x03, 0xc0, 0xe5, 0x00, 0xb6, 0x53, 0xca, 0x82, 0x27, 0x3b, 0x7b, 0xfa, 0xd8, 0x04,
            0x5d, 0x85, 0xa4, 0x70
        ]
    );
    assert_eq!(
        Keccak::hashv(&[b"ab".as_slice(), b"c".as_slice()]).unwrap(),
        Keccak::hash(b"abc").unwrap()
    );
}

#[test]
fn test_blake3_known_vector() {
    assert_eq!(
        Blake3::hash(&[]).unwrap(),
        [
            0xaf, 0x13, 0x49, 0xb9, 0xf5, 0xf9, 0xa1, 0xa6, 0xa0, 0x40, 0x4d, 0xea, 0x36, 0xdc,
            0xc9, 0x49, 0x9b, 0xcb, 0x25, 0xc9, 0xad, 0xc1, 0x12, 0xb7, 0xcc, 0x9a, 0x93, 0xca,
            0xe4, 0x1f, 0x32, 0x62
        ]
    );
    assert_eq!(
        Blake3::hashv(&[b"ab".as_slice(), b"c".as_slice()]).unwrap(),
        Blake3::hash(b"abc").unwrap()
    );
}

#[test]
fn test_poseidon_known_vector() {
    let ones = [1u8; 32];
    let twos = [2u8; 32];
    assert_eq!(
        Poseidon::hashv(&[&ones, &twos]).unwrap(),
        [
            40, 7, 251, 60, 51, 30, 115, 141, 251, 200, 13, 46, 134, 91, 113, 170, 131, 90, 53,
            175, 9, 61, 242, 164, 127, 33, 249, 65, 253, 131, 35, 116
        ]
    );
}

#[test]
fn test_poseidon_rejects_three_buffers() {
    let a = [1u8; 32];
    let err = Poseidon::hashv(&[&a, &a, &a]).unwrap_err();
    assert_eq!(err, HasherError::DigestConversion);
}

#[test]
fn test_poseidon_single_buffer() {
    let a = [7u8; 32];
    // One buffer is within the width-3 parameter set's capacity.
    let once = Poseidon::hash(&a).unwrap();
    let again = Poseidon::hashv(&[&a]).unwrap();
    assert_eq!(once, again);
}
