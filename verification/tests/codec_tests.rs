use cmip_records::CMIPAbortInfo;
use cmip_records::CMIPAbortSource;
use cmip_records::CMIPUserInfo;
use cmip_records::DecodingError;
use cmip_records::OpenTypedValue;
use cmip_records::cmip_abortinfo_oid;
use cmip_records::cmip_userinfo_oid;

fn open(bytes: &[u8]) -> OpenTypedValue {
    OpenTypedValue::new(bytes.to_vec())
}

#[test]
fn it_works() {
    assert_eq!(2 + 2, 4);
}

#[test]
fn oid_values() {
    assert_eq!(cmip_userinfo_oid(), vec![9, 1, 0, 1]);
    assert_eq!(cmip_abortinfo_oid(), vec![9, 1, 0, 2]);
}

#[test]
fn default_user_info() {
    let record = CMIPUserInfo::default();
    assert_eq!(record.functional_units, vec![0, 0, 0, 0]);
    assert_eq!(record.protocol_version, vec![1, 0]);
    assert_eq!(record.access_control, None);
    assert_eq!(record.user_info, None);
}

#[test]
fn user_info_round_trip_no_optionals() {
    let record = CMIPUserInfo::new([1, 2, 3, 4], [0x80, 0x40], None, None);
    let encoded = record.encode();
    assert_eq!(
        encoded,
        vec![
            0x30, 0x0C, //
            0x80, 0x05, 0x00, 0x01, 0x02, 0x03, 0x04, //
            0x81, 0x03, 0x00, 0x80, 0x40,
        ]
    );
    let (decoded, used) = CMIPUserInfo::decode(&encoded).unwrap();
    assert_eq!(decoded, record);
    assert_eq!(used, encoded.len());
}

#[test]
fn user_info_round_trip_access_control_only() {
    let record = CMIPUserInfo::new([1, 2, 3, 4], [0x80, 0x40], Some(open(&[0xDE, 0xAD])), None);
    let encoded = record.encode();
    assert_eq!(
        encoded,
        vec![
            0x30, 0x10, //
            0x80, 0x05, 0x00, 0x01, 0x02, 0x03, 0x04, //
            0x81, 0x03, 0x00, 0x80, 0x40, //
            0xA2, 0x02, 0xDE, 0xAD,
        ]
    );
    let (decoded, used) = CMIPUserInfo::decode(&encoded).unwrap();
    assert_eq!(decoded, record);
    assert_eq!(used, encoded.len());
}

#[test]
fn user_info_round_trip_user_info_only() {
    // tag 3 appears with no preceding tag 2: four tagged elements in all, and
    // access control resolves as absent, not as a decode error
    let record = CMIPUserInfo::new([0, 0, 0, 0], [1, 0], None, Some(open(&[0xCA, 0xFE])));
    let encoded = record.encode();
    assert_eq!(
        encoded,
        vec![
            0x30, 0x10, //
            0x80, 0x05, 0x00, 0x00, 0x00, 0x00, 0x00, //
            0x81, 0x03, 0x00, 0x01, 0x00, //
            0xA3, 0x02, 0xCA, 0xFE,
        ]
    );
    let (decoded, used) = CMIPUserInfo::decode(&encoded).unwrap();
    assert_eq!(decoded, record);
    assert_eq!(decoded.access_control, None);
    assert_eq!(used, encoded.len());
}

#[test]
fn user_info_round_trip_both_optionals() {
    let record = CMIPUserInfo::new(
        [1, 2, 3, 4],
        [0x80, 0x40],
        Some(open(&[0xDE, 0xAD])),
        Some(open(&[0xCA, 0xFE])),
    );
    let encoded = record.encode();
    // the tag-2 element always precedes the tag-3 element
    assert_eq!(
        encoded,
        vec![
            0x30, 0x14, //
            0x80, 0x05, 0x00, 0x01, 0x02, 0x03, 0x04, //
            0x81, 0x03, 0x00, 0x80, 0x40, //
            0xA2, 0x02, 0xDE, 0xAD, //
            0xA3, 0x02, 0xCA, 0xFE,
        ]
    );
    let (decoded, used) = CMIPUserInfo::decode(&encoded).unwrap();
    assert_eq!(decoded, record);
    assert_eq!(used, encoded.len());
}

#[test]
fn user_info_misordered_optionals_rejected() {
    // tag 3 before tag 2 must fail, never silently misassign the fields
    let bytes = vec![
        0x30, 0x14, //
        0x80, 0x05, 0x00, 0x01, 0x02, 0x03, 0x04, //
        0x81, 0x03, 0x00, 0x80, 0x40, //
        0xA3, 0x02, 0xCA, 0xFE, //
        0xA2, 0x02, 0xDE, 0xAD,
    ];
    assert_eq!(CMIPUserInfo::decode(&bytes), Err(DecodingError::UnexpectedTag));
}

#[test]
fn user_info_unknown_tag_in_tail_rejected() {
    let bytes = vec![
        0x30, 0x0E, //
        0x80, 0x05, 0x00, 0x01, 0x02, 0x03, 0x04, //
        0x81, 0x03, 0x00, 0x80, 0x40, //
        0x84, 0x00,
    ];
    assert_eq!(CMIPUserInfo::decode(&bytes), Err(DecodingError::UnexpectedTag));
}

#[test]
fn user_info_wrong_outer_tag_rejected() {
    let bytes = vec![
        0x31, 0x0C, //
        0x80, 0x05, 0x00, 0x01, 0x02, 0x03, 0x04, //
        0x81, 0x03, 0x00, 0x80, 0x40,
    ];
    assert_eq!(CMIPUserInfo::decode(&bytes), Err(DecodingError::MalformedPrimitive));
}

#[test]
fn user_info_bad_bitmap_width_rejected() {
    // the functional-units bit string carries three octets instead of four
    let bytes = vec![
        0x30, 0x0B, //
        0x80, 0x04, 0x00, 0x01, 0x02, 0x03, //
        0x81, 0x03, 0x00, 0x80, 0x40,
    ];
    assert_eq!(CMIPUserInfo::decode(&bytes), Err(DecodingError::MalformedPrimitive));
}

#[test]
fn user_info_nonminimal_length_rejected() {
    // a long length form whose value fits the short form does not conform
    let bytes = vec![
        0x30, 0x81, 0x0C, //
        0x80, 0x05, 0x00, 0x01, 0x02, 0x03, 0x04, //
        0x81, 0x03, 0x00, 0x80, 0x40,
    ];
    assert_eq!(CMIPUserInfo::decode(&bytes), Err(DecodingError::MalformedPrimitive));
}

#[test]
fn user_info_truncation_rejected() {
    let record = CMIPUserInfo::new(
        [1, 2, 3, 4],
        [0x80, 0x40],
        Some(open(&[0xDE, 0xAD])),
        Some(open(&[0xCA, 0xFE])),
    );
    let encoded = record.encode();
    for n in 0..encoded.len() {
        assert_eq!(
            CMIPUserInfo::decode(&encoded[..n]),
            Err(DecodingError::TruncatedInput),
            "prefix of {} octets",
            n
        );
    }
}

#[test]
fn user_info_trailing_bytes_left_alone() {
    let record = CMIPUserInfo::new([1, 2, 3, 4], [0x80, 0x40], None, None);
    let mut bytes = record.encode();
    let record_len = bytes.len();
    bytes.push(0xFF);
    bytes.push(0xEE);
    let (decoded, used) = CMIPUserInfo::decode(&bytes).unwrap();
    assert_eq!(decoded, record);
    assert_eq!(used, record_len);
}

#[test]
fn user_info_long_payloads_use_long_length_forms() {
    let record = CMIPUserInfo::new(
        [9, 8, 7, 6],
        [1, 0],
        Some(open(&vec![0xCD; 40000])),
        Some(open(&vec![0xAB; 40000])),
    );
    let encoded = record.encode();
    // contents of 80020 octets: the outer length takes the three-octet form
    assert_eq!(&encoded[..5], &[0x30, 0x83, 0x01, 0x38, 0x94]);
    let (decoded, used) = CMIPUserInfo::decode(&encoded).unwrap();
    assert_eq!(decoded, record);
    assert_eq!(used, encoded.len());
}

#[test]
fn abort_info_round_trip_no_user_info() {
    // exactly one tagged element inside the sequence: value 1 under tag 0
    let record = CMIPAbortInfo::new(CMIPAbortSource::CMISEServiceProvider, None);
    let encoded = record.encode();
    assert_eq!(encoded, vec![0x30, 0x03, 0x80, 0x01, 0x01]);
    let (decoded, used) = CMIPAbortInfo::decode(&encoded).unwrap();
    assert_eq!(decoded, record);
    assert_eq!(used, encoded.len());
}

#[test]
fn abort_info_round_trip_with_user_info() {
    let record = CMIPAbortInfo::new(
        CMIPAbortSource::CMISEServiceUser,
        Some(open(&[0x01, 0x02, 0x03])),
    );
    let encoded = record.encode();
    assert_eq!(
        encoded,
        vec![
            0x30, 0x08, //
            0x80, 0x01, 0x00, //
            0xA1, 0x03, 0x01, 0x02, 0x03,
        ]
    );
    let (decoded, used) = CMIPAbortInfo::decode(&encoded).unwrap();
    assert_eq!(decoded, record);
    assert_eq!(used, encoded.len());
}

#[test]
fn abort_source_enumerated_domain() {
    let user = vec![0x30, 0x03, 0x80, 0x01, 0x00];
    let (decoded, _) = CMIPAbortInfo::decode(&user).unwrap();
    assert_eq!(decoded.abort_source, CMIPAbortSource::CMISEServiceUser);

    let provider = vec![0x30, 0x03, 0x80, 0x01, 0x01];
    let (decoded, _) = CMIPAbortInfo::decode(&provider).unwrap();
    assert_eq!(decoded.abort_source, CMIPAbortSource::CMISEServiceProvider);

    let two = vec![0x30, 0x03, 0x80, 0x01, 0x02];
    assert_eq!(CMIPAbortInfo::decode(&two), Err(DecodingError::InvalidEnumeratedValue));

    let big = vec![0x30, 0x03, 0x80, 0x01, 0xFF];
    assert_eq!(CMIPAbortInfo::decode(&big), Err(DecodingError::InvalidEnumeratedValue));
}

#[test]
fn abort_info_unknown_tail_tag_rejected() {
    let bytes = vec![0x30, 0x05, 0x80, 0x01, 0x00, 0x84, 0x00];
    assert_eq!(CMIPAbortInfo::decode(&bytes), Err(DecodingError::UnexpectedTag));
}

#[test]
fn abort_info_trailing_octets_in_sequence_rejected() {
    let bytes = vec![
        0x30, 0x08, //
        0x80, 0x01, 0x00, //
        0xA1, 0x01, 0xAA, //
        0x84, 0x00,
    ];
    assert_eq!(CMIPAbortInfo::decode(&bytes), Err(DecodingError::UnexpectedTag));
}

#[test]
fn abort_info_truncation_rejected() {
    let record = CMIPAbortInfo::new(
        CMIPAbortSource::CMISEServiceProvider,
        Some(open(&[0x55, 0x66])),
    );
    let encoded = record.encode();
    for n in 0..encoded.len() {
        assert_eq!(
            CMIPAbortInfo::decode(&encoded[..n]),
            Err(DecodingError::TruncatedInput),
            "prefix of {} octets",
            n
        );
    }
}

#[test]
fn abort_info_bad_enumerated_shape_rejected() {
    // two contents octets where the enumerated value must have one
    let bytes = vec![0x30, 0x04, 0x80, 0x02, 0x00, 0x00];
    assert_eq!(CMIPAbortInfo::decode(&bytes), Err(DecodingError::MalformedPrimitive));
}
