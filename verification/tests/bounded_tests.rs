use sv2_wire::bounded::{Str0255, B016M, B032, B064K, Seq064K};
use sv2_wire::codec::CodecError;
use sv2_wire::rpc::BlockHash;

#[test]
fn test_str0255_tier_boundaries() {
    assert_eq!(Str0255::try_from_bytes(Vec::new()).unwrap().len(), 0);
    assert_eq!(Str0255::try_from_bytes(vec![7u8; 255]).unwrap().len(), 255);
    assert_eq!(
        Str0255::try_from_bytes(vec![7u8; 256]).unwrap_err(),
        CodecError::LengthViolation
    );
}

#[test]
fn test_b032_tier_boundaries() {
    assert_eq!(B032::try_from_bytes(Vec::new()).unwrap().len(), 0);
    assert_eq!(B032::try_from_bytes(vec![1u8; 32]).unwrap().len(), 32);
    assert_eq!(
        B032::try_from_bytes(vec![1u8; 33]).unwrap_err(),
        CodecError::LengthViolation
    );
}

#[test]
fn test_b064k_tier_boundaries() {
    assert_eq!(B064K::try_from_bytes(Vec::new()).unwrap().len(), 0);
    assert_eq!(B064K::try_from_bytes(vec![1u8; 65535]).unwrap().len(), 65535);
    assert_eq!(
        B064K::try_from_bytes(vec![1u8; 65536]).unwrap_err(),
        CodecError::LengthViolation
    );
}

#[test]
fn test_b016m_tier_boundaries() {
    assert_eq!(B016M::try_from_bytes(Vec::new()).unwrap().len(), 0);
    assert_eq!(
        B016M::try_from_bytes(vec![1u8; 16777215]).unwrap().len(),
        16777215
    );
    assert_eq!(
        B016M::try_from_bytes(vec![1u8; 16777216]).unwrap_err(),
        CodecError::LengthViolation
    );
}

#[test]
fn test_seq064k_tier_boundaries() {
    assert_eq!(Seq064K::try_from_elems(Vec::new()).unwrap().len(), 0);
    let full: Vec<B016M> = (0..65535).map(|_| B016M { data: Vec::new() }).collect();
    assert_eq!(Seq064K::try_from_elems(full).unwrap().len(), 65535);
    let over: Vec<B016M> = (0..65536).map(|_| B016M { data: Vec::new() }).collect();
    assert_eq!(
        Seq064K::try_from_elems(over).unwrap_err(),
        CodecError::LengthViolation
    );
}

#[test]
fn test_hash_types() {
    let h = sv2_wire::rpc::Hash([0xabu8; 32]);
    let h2 = sv2_wire::rpc::Hash([0xabu8; 32]);
    assert_eq!(h, h2);
    let b = BlockHash(h.clone());
    assert!(b == BlockHash(h2));
    assert_eq!(b.0 .0[31], 0xab);
    assert_ne!(sv2_wire::rpc::Hash([0u8; 32]), h);
}
