use cw_core::unique_vec::UniqueVec;
use cw_core::StdError;

#[test]
fn deserializing_unique_vec() {
    let ok = UniqueVec::<u32>::from_json(&b"[1, 2, 3, 4, 5]".to_vec()).unwrap();
    assert_eq!(ok.into_inner(), vec![1, 2, 3, 4, 5]);

    let err = UniqueVec::<u32>::from_json(&b"[1, 2, 3, 1, 5]".to_vec()).unwrap_err();
    assert_eq!(err.message(), "duplicate data found!");
}

#[test]
fn unique_vec_rejects_duplicates() {
    let err = UniqueVec::new(vec![1u32, 2, 3, 1]).unwrap_err();
    assert_eq!(err, StdError::DuplicateData);
    assert_eq!(err.message(), "duplicate data found!");
}

#[test]
fn unique_vec_keeps_original_order() {
    let ok = UniqueVec::new(vec![3u32, 1, 2]).unwrap();
    assert_eq!(ok.inner(), &vec![3, 1, 2]);
}

#[test]
fn unique_vec_roundtrip_preserves_order_and_uniqueness() {
    let u = UniqueVec::new(vec![9u32, 4, 7]).unwrap();
    let bytes = u.to_json();
    assert_eq!(bytes, b"[9,4,7]".to_vec());
    let back = UniqueVec::<u32>::from_json(&bytes).unwrap();
    assert_eq!(back.into_inner(), vec![9, 4, 7]);
}

#[test]
fn unique_vec_rejects_malformed_json() {
    let err = UniqueVec::<u32>::from_json(&b"[1, 2,".to_vec()).unwrap_err();
    assert_eq!(err, StdError::Encoding);
}

#[test]
fn new_unchecked_wraps_without_validation() {
    let u = UniqueVec::new_unchecked(vec![1u32, 1]);
    assert_eq!(u.into_inner(), vec![1, 1]);
}
