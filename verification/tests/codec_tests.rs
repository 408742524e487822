use cw_core::StoreKey;
use cw_core::keys::decode_encoded;
use cw_core::bytes::{bytes_lt, extend_one_byte, increment_last_byte, starts_with, trim};
use cw_core::namespace::nested_namespaces_with_key;

#[test]
fn integer_keys_encode_fixed_width_big_endian() {
    assert_eq!(1u32.encode(), vec![0, 0, 0, 1]);
    assert_eq!(0x0102_0304u32.encode(), vec![1, 2, 3, 4]);
    assert_eq!(1u64.encode(), vec![0, 0, 0, 0, 0, 0, 0, 1]);
    assert_eq!(u64::MAX.encode(), vec![0xff; 8]);
}

#[test]
fn decode_inverts_encode() {
    assert_eq!(decode_encoded(&42u64), 42);
    assert_eq!(decode_encoded(&0u32), 0);
    assert_eq!(decode_encoded(&u32::MAX), u32::MAX);
    assert_eq!(decode_encoded(&b"raw key".to_vec()), b"raw key".to_vec());
    assert_eq!(u64::decode(&7u64.encode()).unwrap(), 7);
}

#[test]
fn decode_rejects_wrong_width() {
    assert!(u64::decode(&vec![1, 2, 3]).is_err());
    assert!(u32::decode(&vec![0; 8]).is_err());
}

#[test]
fn encoding_preserves_order_under_prefix() {
    // P ++ encode(k1) < P ++ encode(k2) whenever k1 < k2.
    let p = b"prefix".to_vec();
    let pairs = [(0u64, 1u64), (1, 2), (255, 256), (u64::MAX - 1, u64::MAX)];
    for (k1, k2) in pairs {
        let a = cw_core::bytes::concat(&p, &k1.encode());
        let b = cw_core::bytes::concat(&p, &k2.encode());
        assert!(bytes_lt(&a, &b), "{k1} vs {k2}");
        assert!(!bytes_lt(&b, &a));
    }
}

#[test]
fn byte_helpers_behave() {
    assert_eq!(extend_one_byte(vec![1, 2]), vec![1, 2, 0]);
    assert_eq!(increment_last_byte(vec![1, 2, 255]), Some(vec![1, 3]));
    assert_eq!(increment_last_byte(vec![255, 255]), None);
    assert_eq!(increment_last_byte(vec![]), None);
    assert!(starts_with(&vec![1, 2, 3], &vec![1, 2]));
    assert!(!starts_with(&vec![1, 2], &vec![1, 2, 3]));
    assert_eq!(trim(&vec![1, 2, 3, 4], 2), vec![3, 4]);
}

#[test]
fn namespaces_length_prefix_inner_segments() {
    let built = nested_namespaces_with_key(
        &b"ns".to_vec(),
        &vec![b"aa".to_vec()],
        Some(&b"k".to_vec()),
    );
    assert_eq!(built, b"ns\x00\x02aak".to_vec());

    let bare = nested_namespaces_with_key(&b"ns".to_vec(), &Vec::new(), None);
    assert_eq!(bare, b"ns".to_vec());
}
