use sv2_wire::bounded::Str0255;
use sv2_wire::codec::CodecError;
use sv2_wire::setup_connection::{
    has_requires_std_job, has_version_rolling, has_work_selection, CSetupConnection,
    CSetupConnectionError, Protocol, SetupConnection, SetupConnectionError, SetupConnectionSuccess,
};

fn create_setup_connection() -> SetupConnection {
    SetupConnection {
        protocol: Protocol::MiningProtocol,
        min_version: 1,
        max_version: 4,
        flags: 0,
        endpoint_host: Str0255::try_from_bytes(b"0.0.0.0".to_vec()).unwrap(),
        endpoint_port: 0,
        vendor: Str0255::try_from_bytes(b"vendor".to_vec()).unwrap(),
        hardware_version: Str0255::try_from_bytes(b"hw_version".to_vec()).unwrap(),
        firmware: Str0255::try_from_bytes(b"firmware".to_vec()).unwrap(),
        device_id: Str0255::try_from_bytes(b"device_id".to_vec()).unwrap(),
    }
}

#[test]
fn test_check_flag() {
    let protocol = Protocol::MiningProtocol;
    let flag_available = 0b_0000_0000_0000_0000_0000_0000_0000_0000;
    let flag_required = 0b_0000_0000_0000_0000_0000_0000_0000_0001;
    assert!(SetupConnection::check_flags(protocol, flag_available, flag_required));

    let protocol = Protocol::JobDeclarationProtocol;
    let available_flags = 0b_1000_0000_0000_0000_0000_0000_0000_0000;
    let required_flags = 0b_1000_0000_0000_0000_0000_0000_0000_0000;
    assert!(SetupConnection::check_flags(protocol, available_flags, required_flags));
}

#[test]
fn test_has_requires_std_job() {
    let flags = 0b_0000_0000_0000_0000_0000_0000_0000_0001;
    assert_eq!(has_requires_std_job(flags), true);
    let flags = 0b_0000_0000_0000_0000_0000_0000_0000_0010;
    assert_eq!(has_requires_std_job(flags), false);
}

#[test]
fn test_has_version_rolling() {
    let flags = 0b_0000_0000_0000_0000_0000_0000_0000_0010;
    assert_eq!(has_version_rolling(flags), true);
    let flags = 0b_0000_0000_0000_0000_0000_0000_0000_0001;
    assert_eq!(has_version_rolling(flags), false);
}

#[test]
fn test_has_work_selection() {
    let flags = 0b_0000_0000_0000_0000_0000_0000_0000_0100;
    assert_eq!(has_work_selection(flags), true);
    let flags = 0b_0000_0000_0000_0000_0000_0000_0000_0001;
    assert_eq!(has_work_selection(flags), false);
}

#[test]
fn test_get_version() {
    let setup_conn = create_setup_connection();
    assert_eq!(setup_conn.get_version(1, 5).unwrap(), 4);
    assert_eq!(setup_conn.get_version(6, 6), None);
}

#[test]
fn test_set_requires_std_job() {
    let mut setup_conn = create_setup_connection();
    assert!(!setup_conn.requires_standard_job());
    setup_conn.set_requires_standard_job();
    assert!(setup_conn.requires_standard_job());
}

#[test]
fn test_version_negotiation_table() {
    // Offered [1,4] against local [1,5]: version 4.
    let offered = create_setup_connection();
    assert_eq!(offered.get_version(1, 5), Some(4));
    // Local [6,6]: incompatible.
    assert_eq!(offered.get_version(6, 6), None);
    // Offered [5,5] against local [1,4]: incompatible.
    let mut high = create_setup_connection();
    high.min_version = 5;
    high.max_version = 5;
    assert_eq!(high.get_version(1, 4), None);
}

#[test]
fn test_job_declaration_flag_truth_table() {
    let p = Protocol::JobDeclarationProtocol;
    // (self requires, peer requires) -> compatible
    assert_eq!(SetupConnection::check_flags(p, 1, 1), true);
    assert_eq!(SetupConnection::check_flags(p, 1, 0), true);
    assert_eq!(SetupConnection::check_flags(p, 0, 1), false);
    assert_eq!(SetupConnection::check_flags(p, 0, 0), true);
}

#[test]
fn test_template_distribution_flags_always_false() {
    let p = Protocol::TemplateDistributionProtocol;
    assert_eq!(SetupConnection::check_flags(p, 0, 0), false);
    assert_eq!(SetupConnection::check_flags(p, 0xffff_ffff, 0), false);
    assert_eq!(SetupConnection::check_flags(p, 0, 0xffff_ffff), false);
    assert_eq!(SetupConnection::check_flags(p, 0x5, 0x7), false);
}

#[test]
fn test_set_async_job_nogotiation() {
    let mut conn = create_setup_connection();
    conn.set_async_job_nogotiation();
    assert_eq!(conn.flags, 1);
}

#[test]
fn test_protocol_codes_round() {
    assert_eq!(Protocol::MiningProtocol.to_u8(), 0);
    assert_eq!(Protocol::JobDeclarationProtocol.to_u8(), 1);
    assert_eq!(Protocol::TemplateDistributionProtocol.to_u8(), 2);
    assert_eq!(Protocol::from_u8(0), Some(Protocol::MiningProtocol));
    assert_eq!(Protocol::from_u8(1), Some(Protocol::JobDeclarationProtocol));
    assert_eq!(Protocol::from_u8(2), Some(Protocol::TemplateDistributionProtocol));
    assert_eq!(Protocol::from_u8(3), None);
    assert_eq!(Protocol::MiningProtocol.get_size(), 1);
}

#[test]
fn test_setup_connection_round_trip() {
    let conn = create_setup_connection();
    let bytes = conn.encode();
    assert_eq!(bytes.len(), conn.get_size());
    // First byte is the protocol discriminant, little-endian fields follow.
    assert_eq!(bytes[0], 0);
    assert_eq!(&bytes[1..3], &[1, 0]);
    assert_eq!(&bytes[3..5], &[4, 0]);
    let (decoded, used) = SetupConnection::decode(&bytes).unwrap();
    assert_eq!(used, bytes.len());
    assert_eq!(decoded, conn);
}

#[test]
fn test_setup_connection_truncation() {
    let conn = create_setup_connection();
    let bytes = conn.encode();
    for cut in 0..bytes.len() {
        let prefix = bytes[..cut].to_vec();
        assert_eq!(
            SetupConnection::decode(&prefix).unwrap_err(),
            CodecError::TruncatedInput
        );
    }
}

#[test]
fn test_setup_connection_unknown_discriminant() {
    let conn = create_setup_connection();
    let mut bytes = conn.encode();
    bytes[0] = 9;
    assert_eq!(
        SetupConnection::decode(&bytes).unwrap_err(),
        CodecError::UnknownDiscriminant
    );
}

#[test]
fn test_setup_connection_trailing_bytes_ignored() {
    let conn = create_setup_connection();
    let mut bytes = conn.encode();
    let size = bytes.len();
    bytes.push(0xaa);
    bytes.push(0xbb);
    let (decoded, used) = SetupConnection::decode(&bytes).unwrap();
    assert_eq!(used, size);
    assert_eq!(decoded, conn);
}

#[test]
fn test_setup_connection_encode_into() {
    let conn = create_setup_connection();
    let size = conn.get_size();
    let mut buf = vec![0u8; size];
    assert_eq!(conn.encode_into(&mut buf).unwrap(), size);
    assert_eq!(buf, conn.encode());
    let mut small = vec![0u8; size - 1];
    assert_eq!(
        conn.encode_into(&mut small).unwrap_err(),
        CodecError::BufferTooSmall
    );
    assert_eq!(small, vec![0u8; size - 1]);
}

#[test]
fn test_setup_connection_success_round_trip() {
    let m = SetupConnectionSuccess { used_version: 2, flags: 0x1234_5678 };
    let bytes = m.encode();
    assert_eq!(bytes.len(), m.get_size());
    assert_eq!(bytes, vec![2, 0, 0x78, 0x56, 0x34, 0x12]);
    let (decoded, used) = SetupConnectionSuccess::decode(&bytes).unwrap();
    assert_eq!(used, 6);
    assert_eq!(decoded, m);
    for cut in 0..bytes.len() {
        let prefix = bytes[..cut].to_vec();
        assert_eq!(
            SetupConnectionSuccess::decode(&prefix).unwrap_err(),
            CodecError::TruncatedInput
        );
    }
}

#[test]
fn test_setup_connection_error_round_trip() {
    let m = SetupConnectionError {
        flags: 0x8000_0000,
        error_code: Str0255::try_from_bytes(b"unsupported-feature-flags".to_vec()).unwrap(),
    };
    let bytes = m.encode();
    assert_eq!(bytes.len(), m.get_size());
    let (decoded, used) = SetupConnectionError::decode(&bytes).unwrap();
    assert_eq!(used, bytes.len());
    assert_eq!(decoded, m);
    for cut in 0..bytes.len() {
        let prefix = bytes[..cut].to_vec();
        assert_eq!(
            SetupConnectionError::decode(&prefix).unwrap_err(),
            CodecError::TruncatedInput
        );
    }
}

#[test]
fn test_setup_connection_foreign_round_trip() {
    let conn = create_setup_connection();
    let c: CSetupConnection = conn.clone().into();
    assert_eq!(c.endpoint_host, b"0.0.0.0".to_vec());
    let back = c.to_rust_rep_mut().unwrap();
    assert_eq!(back, conn);
}

#[test]
fn test_setup_connection_foreign_release() {
    let conn = create_setup_connection();
    let mut c: CSetupConnection = conn.into();
    c.release();
    assert!(c.endpoint_host.is_empty());
    assert!(c.vendor.is_empty());
    assert!(c.hardware_version.is_empty());
    assert!(c.firmware.is_empty());
    assert!(c.device_id.is_empty());
    // Releasing twice is safe and leaves the same empty state.
    c.release();
    assert!(c.endpoint_host.is_empty());
    sv2_wire::setup_connection::free_setup_connection(c);
}

#[test]
fn test_setup_connection_foreign_rejects_oversize() {
    let conn = create_setup_connection();
    let mut c: CSetupConnection = conn.into();
    c.vendor = vec![0u8; 256];
    assert_eq!(c.to_rust_rep_mut().unwrap_err(), CodecError::LengthViolation);
}

#[test]
fn test_setup_connection_error_foreign_round_trip() {
    let m = SetupConnectionError {
        flags: 7,
        error_code: Str0255::try_from_bytes(b"unsupported-protocol".to_vec()).unwrap(),
    };
    let c: CSetupConnectionError = m.clone().into();
    let back = c.to_rust_rep_mut().unwrap();
    assert_eq!(back, m);

    let m2 = SetupConnectionError {
        flags: 0,
        error_code: Str0255::try_from_bytes(b"protocol-version-mismatch".to_vec()).unwrap(),
    };
    let mut c2: CSetupConnectionError = m2.into();
    c2.release();
    assert!(c2.error_code.is_empty());
    c2.release();
    sv2_wire::setup_connection::free_setup_connection_error(c2);
}
