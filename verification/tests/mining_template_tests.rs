use sv2_wire::bounded::{Str0255, B016M, B032, B064K, Seq064K};
use sv2_wire::codec::CodecError;
use sv2_wire::request_transaction_data::{
    free_request_tx_data_error, free_request_tx_data_success, CRequestTransactionDataError,
    CRequestTransactionDataSuccess, RequestTransactionData, RequestTransactionDataError,
    RequestTransactionDataSuccess,
};
use sv2_wire::submit_shares::{
    SubmitSharesError, SubmitSharesExtended, SubmitSharesStandard, SubmitSharesSuccess,
};
use sv2_wire::submit_solution::{free_submit_solution, CSubmitSolution, SubmitSolution};

fn sample_standard() -> SubmitSharesStandard {
    SubmitSharesStandard {
        channel_id: 1,
        sequence_number: 5,
        job_id: 9,
        nonce: 0xdead_beef,
        ntime: 0x5f00_0000,
        version: 0x2000_0000,
    }
}

fn sample_extended() -> SubmitSharesExtended {
    SubmitSharesExtended {
        channel_id: 2,
        sequence_number: 6,
        job_id: 10,
        nonce: 42,
        ntime: 43,
        version: 44,
        extranonce: B032 { data: vec![1, 2, 3, 4] },
    }
}

fn sample_rtd_success() -> RequestTransactionDataSuccess {
    RequestTransactionDataSuccess {
        template_id: 77,
        excess_data: B064K { data: vec![9, 8, 7] },
        transaction_list: Seq064K {
            elems: vec![
                B016M { data: vec![1, 1, 1] },
                B016M { data: Vec::new() },
                B016M { data: vec![5; 10] },
            ],
        },
    }
}

#[test]
fn test_submit_shares_standard_round_trip() {
    let m = sample_standard();
    let bytes = m.encode();
    assert_eq!(bytes.len(), m.get_size());
    assert_eq!(m.get_size(), 24);
    let (decoded, used) = SubmitSharesStandard::decode(&bytes).unwrap();
    assert_eq!(used, 24);
    assert_eq!(decoded, m);
    for cut in 0..bytes.len() {
        let prefix = bytes[..cut].to_vec();
        assert_eq!(
            SubmitSharesStandard::decode(&prefix).unwrap_err(),
            CodecError::TruncatedInput
        );
    }
}

#[test]
fn test_submit_shares_extended_round_trip() {
    let m = sample_extended();
    let bytes = m.encode();
    assert_eq!(bytes.len(), m.get_size());
    assert_eq!(m.get_size(), 29);
    let (decoded, used) = SubmitSharesExtended::decode(&bytes).unwrap();
    assert_eq!(used, 29);
    assert_eq!(decoded, m);
    for cut in 0..bytes.len() {
        let prefix = bytes[..cut].to_vec();
        assert_eq!(
            SubmitSharesExtended::decode(&prefix).unwrap_err(),
            CodecError::TruncatedInput
        );
    }
}

#[test]
fn test_submit_shares_extended_extranonce_boundaries() {
    let mut m = sample_extended();
    m.extranonce = B032 { data: Vec::new() };
    let (decoded, _) = SubmitSharesExtended::decode(&m.encode()).unwrap();
    assert_eq!(decoded, m);
    m.extranonce = B032 { data: vec![7u8; 32] };
    let (decoded, _) = SubmitSharesExtended::decode(&m.encode()).unwrap();
    assert_eq!(decoded, m);
}

#[test]
fn test_submit_shares_extended_oversize_extranonce_rejected() {
    // A length prefix claiming 33 extranonce bytes exceeds the 32-byte tier.
    let m = sample_extended();
    let mut bytes = m.encode();
    bytes[24] = 33;
    for _ in 0..29 {
        bytes.push(0);
    }
    assert_eq!(
        SubmitSharesExtended::decode(&bytes).unwrap_err(),
        CodecError::LengthViolation
    );
}

#[test]
fn test_submit_shares_static_copies() {
    let m = sample_extended();
    let copied = m.as_static();
    assert_eq!(copied, m);
    assert_eq!(m.into_static(), copied);
    let e = SubmitSharesError {
        channel_id: 1,
        sequence_number: 2,
        error_code: Str0255 { data: b"stale-share".to_vec() },
    };
    let copied = e.as_static();
    assert_eq!(copied, e);
    assert_eq!(e.into_static(), copied);
}

#[test]
fn test_share_acknowledgment_aggregation() {
    // Three accepted submissions on one channel arrive with sequence numbers
    // 5, 7, 6, in that order.
    let mut subs = Vec::new();
    for seq in [5u32, 7, 6] {
        let mut s = sample_standard();
        s.sequence_number = seq;
        subs.push(s);
    }
    // A single cumulative acknowledgment reports the most recently received
    // sequence number (6, not the numerically highest 7) and the batch count.
    let ack = SubmitSharesSuccess {
        channel_id: subs[0].channel_id,
        last_sequence_number: subs[2].sequence_number,
        new_submits_accepted_count: 3,
        new_shares_sum: 3,
    };
    assert_eq!(ack.last_sequence_number, 6);
    assert_eq!(ack.new_submits_accepted_count, 3);
    let bytes = ack.encode();
    assert_eq!(bytes.len(), ack.get_size());
    let (decoded, _) = SubmitSharesSuccess::decode(&bytes).unwrap();
    assert_eq!(decoded, ack);
}

#[test]
fn test_submit_shares_success_truncation() {
    let ack = SubmitSharesSuccess {
        channel_id: 8,
        last_sequence_number: 9,
        new_submits_accepted_count: 10,
        new_shares_sum: u64::MAX,
    };
    let bytes = ack.encode();
    for cut in 0..bytes.len() {
        let prefix = bytes[..cut].to_vec();
        assert_eq!(
            SubmitSharesSuccess::decode(&prefix).unwrap_err(),
            CodecError::TruncatedInput
        );
    }
}

#[test]
fn test_submit_shares_error_round_trip_and_codes() {
    assert_eq!(SubmitSharesError::invalid_channel_error_code(), "invalid-channel-id");
    assert_eq!(SubmitSharesError::stale_share_error_code(), "stale-share");
    assert_eq!(SubmitSharesError::difficulty_too_low_error_code(), "difficulty-too-low");
    assert_eq!(SubmitSharesError::invalid_job_id_error_code(), "invalid-job-id");
    for code in [
        SubmitSharesError::invalid_channel_error_code(),
        SubmitSharesError::stale_share_error_code(),
        SubmitSharesError::difficulty_too_low_error_code(),
        SubmitSharesError::invalid_job_id_error_code(),
    ] {
        let m = SubmitSharesError {
            channel_id: 3,
            sequence_number: 12,
            error_code: Str0255::try_from_bytes(code.as_bytes().to_vec()).unwrap(),
        };
        let bytes = m.encode();
        assert_eq!(bytes.len(), m.get_size());
        let (decoded, used) = SubmitSharesError::decode(&bytes).unwrap();
        assert_eq!(used, bytes.len());
        assert_eq!(decoded, m);
    }
}

#[test]
fn test_request_transaction_data_round_trip() {
    let m = RequestTransactionData { template_id: u64::MAX };
    let bytes = m.encode();
    assert_eq!(bytes.len(), m.get_size());
    assert_eq!(bytes, vec![0xff; 8]);
    let (decoded, used) = RequestTransactionData::decode(&bytes).unwrap();
    assert_eq!(used, 8);
    assert_eq!(decoded, m);
    for cut in 0..bytes.len() {
        let prefix = bytes[..cut].to_vec();
        assert_eq!(
            RequestTransactionData::decode(&prefix).unwrap_err(),
            CodecError::TruncatedInput
        );
    }
}

#[test]
fn test_rtd_success_round_trip() {
    let m = sample_rtd_success();
    let bytes = m.encode();
    assert_eq!(bytes.len(), m.get_size());
    let (decoded, used) = RequestTransactionDataSuccess::decode(&bytes).unwrap();
    assert_eq!(used, bytes.len());
    assert_eq!(decoded, m);
}

#[test]
fn test_rtd_success_empty_list_round_trip() {
    let m = RequestTransactionDataSuccess {
        template_id: 1,
        excess_data: B064K { data: Vec::new() },
        transaction_list: Seq064K { elems: Vec::new() },
    };
    let bytes = m.encode();
    assert_eq!(bytes.len(), m.get_size());
    assert_eq!(bytes.len(), 12);
    let (decoded, used) = RequestTransactionDataSuccess::decode(&bytes).unwrap();
    assert_eq!(used, 12);
    assert_eq!(decoded, m);
}

#[test]
fn test_rtd_success_forward_compatibility() {
    // Unrecognized trailing bytes after the defined fields must be ignored.
    let m = sample_rtd_success();
    let mut bytes = m.encode();
    let size = bytes.len();
    bytes.extend_from_slice(&[0xde, 0xad, 0xbe, 0xef, 0x01]);
    let (decoded, used) = RequestTransactionDataSuccess::decode(&bytes).unwrap();
    assert_eq!(used, size);
    assert_eq!(decoded, m);
}

#[test]
fn test_rtd_success_truncation() {
    let m = sample_rtd_success();
    let bytes = m.encode();
    for cut in 0..bytes.len() {
        let prefix = bytes[..cut].to_vec();
        assert_eq!(
            RequestTransactionDataSuccess::decode(&prefix).unwrap_err(),
            CodecError::TruncatedInput
        );
    }
}

#[test]
fn test_rtd_success_foreign_round_trip() {
    let m = sample_rtd_success();
    let c = CRequestTransactionDataSuccess::from_rust_rep(m.clone());
    assert_eq!(c.transaction_list.len(), 3);
    assert_eq!(c.transaction_list[0], vec![1, 1, 1]);
    let back = c.to_rust_rep_mut().unwrap();
    assert_eq!(back, m);
    let mut c = c;
    c.release();
    assert!(c.excess_data.is_empty());
    assert!(c.transaction_list.is_empty());
    c.release();
    free_request_tx_data_success(c);
}

#[test]
fn test_rtd_success_foreign_rejects_oversize() {
    let m = sample_rtd_success();
    let mut c = CRequestTransactionDataSuccess::from_rust_rep(m);
    c.transaction_list.push(vec![0u8; 16777216]);
    assert_eq!(c.to_rust_rep_mut().unwrap_err(), CodecError::LengthViolation);
    // A partially populated mirror still releases every owned block.
    c.release();
    assert!(c.transaction_list.is_empty());
}

#[test]
fn test_rtd_error_round_trip() {
    let m = RequestTransactionDataError {
        template_id: 77,
        error_code: Str0255::try_from_bytes(b"template-id-not-found".to_vec()).unwrap(),
    };
    let bytes = m.encode();
    assert_eq!(bytes.len(), m.get_size());
    let (decoded, used) = RequestTransactionDataError::decode(&bytes).unwrap();
    assert_eq!(used, bytes.len());
    assert_eq!(decoded, m);
    for cut in 0..bytes.len() {
        let prefix = bytes[..cut].to_vec();
        assert_eq!(
            RequestTransactionDataError::decode(&prefix).unwrap_err(),
            CodecError::TruncatedInput
        );
    }
    let c: CRequestTransactionDataError = m.clone().into();
    let back = c.to_rust_rep_mut().unwrap();
    assert_eq!(back, m);
    let mut c: CRequestTransactionDataError = m.into();
    c.release();
    assert!(c.error_code.is_empty());
    free_request_tx_data_error(c);
}

#[test]
fn test_submit_solution_round_trip() {
    let m = SubmitSolution {
        template_id: 500,
        version: 0x2000_0000,
        header_timestamp: 1_700_000_000,
        header_nonce: 0xcafe_babe,
        coinbase_tx: B064K { data: vec![3u8; 100] },
    };
    let bytes = m.encode();
    assert_eq!(bytes.len(), m.get_size());
    assert_eq!(m.get_size(), 122);
    let (decoded, used) = SubmitSolution::decode(&bytes).unwrap();
    assert_eq!(used, 122);
    assert_eq!(decoded, m);
    for cut in 0..bytes.len() {
        let prefix = bytes[..cut].to_vec();
        assert_eq!(
            SubmitSolution::decode(&prefix).unwrap_err(),
            CodecError::TruncatedInput
        );
    }
}

#[test]
fn test_submit_solution_foreign_round_trip() {
    let m = SubmitSolution {
        template_id: 500,
        version: 1,
        header_timestamp: 2,
        header_nonce: 3,
        coinbase_tx: B064K { data: vec![9, 9] },
    };
    let c: CSubmitSolution = m.clone().into();
    let back = c.to_rust_rep_mut().unwrap();
    assert_eq!(back, m);
    let mut c: CSubmitSolution = m.into();
    c.release();
    assert!(c.coinbase_tx.is_empty());
    c.release();
    free_submit_solution(c);
}

#[test]
fn test_encode_into_exact_and_short_buffers() {
    let m = sample_standard();
    let size = m.get_size();
    let mut buf = vec![0u8; size + 2];
    buf[size] = 0x55;
    buf[size + 1] = 0x66;
    assert_eq!(m.encode_into(&mut buf).unwrap(), size);
    assert_eq!(&buf[..size], &m.encode()[..]);
    assert_eq!(&buf[size..], &[0x55, 0x66]);
    let mut small = vec![0u8; size - 1];
    assert_eq!(m.encode_into(&mut small).unwrap_err(), CodecError::BufferTooSmall);
}
