use kafka_lag::codec::encode_offset_key;
use kafka_lag::codec::encode_offset_value;
use kafka_lag::codec::parse_member_assignment;
use kafka_lag::codec::parse_message;
use kafka_lag::codec::read_str;
use kafka_lag::codec::read_string;
use kafka_lag::records::LagError;
use kafka_lag::records::MemberAssignment;
use kafka_lag::records::OffsetRecord;

/// Key schema version 0, group "g1", topic "top", partition 2.
fn commit_key() -> Vec<u8> {
    vec![
        0x00, 0x00, // key schema version 0
        0x00, 0x02, b'g', b'1', // group
        0x00, 0x03, b't', b'o', b'p', // topic
        0x00, 0x00, 0x00, 0x02, // partition
    ]
}

#[test]
fn commit_key_and_value_decode() {
    let payload = vec![0x00, 0x00, 0x00, 0x00, 0x00, 0x00, 0x00, 0x00, 0x00, 0x0a];
    let rec = parse_message(&commit_key(), &payload).unwrap();
    assert_eq!(
        rec,
        OffsetRecord::OffsetCommit {
            group: "g1".to_string(),
            topic: "top".to_string(),
            partition: 2,
            offset: 10,
        }
    );
}

#[test]
fn empty_payload_is_tombstone() {
    let rec = parse_message(&commit_key(), &[]).unwrap();
    assert_eq!(rec, OffsetRecord::Tombstone);
}

#[test]
fn version_one_key_decodes_too() {
    let mut key = commit_key();
    key[1] = 0x01;
    let payload = vec![0x00, 0x01, 0x00, 0x00, 0x00, 0x00, 0x00, 0x00, 0x01, 0x00];
    let rec = parse_message(&key, &payload).unwrap();
    assert_eq!(
        rec,
        OffsetRecord::OffsetCommit {
            group: "g1".to_string(),
            topic: "top".to_string(),
            partition: 2,
            offset: 256,
        }
    );
}

#[test]
fn unknown_version_is_metadata() {
    let mut key = commit_key();
    key[1] = 0x02;
    assert_eq!(parse_message(&key, &[]).unwrap(), OffsetRecord::GroupMetadata);
    // version -1 (0xffff) is not an offset-commit version either
    key[0] = 0xff;
    key[1] = 0xff;
    let payload = vec![0x01, 0x02, 0x03];
    assert_eq!(parse_message(&key, &payload).unwrap(), OffsetRecord::GroupMetadata);
}

#[test]
fn truncated_key_is_malformed() {
    // declared group length 5 exceeds the remaining two bytes
    let key = vec![0x00, 0x00, 0x00, 0x05, b'g', b'1'];
    assert_eq!(parse_message(&key, &[]), Err(LagError::MalformedRecord));
    // a key too short to even hold its version
    assert_eq!(parse_message(&[0x00], &[]), Err(LagError::MalformedRecord));
}

#[test]
fn negative_length_prefix_is_malformed() {
    let key = vec![0x00, 0x00, 0x80, 0x00, b'g', b'1'];
    assert_eq!(parse_message(&key, &[]), Err(LagError::MalformedRecord));
}

#[test]
fn invalid_utf8_group_is_malformed() {
    let key = vec![0x00, 0x00, 0x00, 0x02, 0xff, 0xfe, 0x00, 0x00, 0x00, 0x00, 0x00, 0x00];
    assert_eq!(parse_message(&key, &[]), Err(LagError::MalformedRecord));
}

#[test]
fn truncated_payload_is_malformed() {
    // non-empty, but too short for a value version and an offset
    let payload = vec![0x00, 0x00, 0x01];
    assert_eq!(parse_message(&commit_key(), &payload), Err(LagError::MalformedRecord));
}

#[test]
fn encode_decode_round_trip() {
    for version in [0i16, 1i16] {
        let key = encode_offset_key(version, "grp", "topic-a", 7).unwrap();
        let payload = encode_offset_value(1, 42);
        let rec = parse_message(&key, &payload).unwrap();
        assert_eq!(
            rec,
            OffsetRecord::OffsetCommit {
                group: "grp".to_string(),
                topic: "topic-a".to_string(),
                partition: 7,
                offset: 42,
            }
        );
    }
}

#[test]
fn encode_decode_round_trip_negative_values() {
    let key = encode_offset_key(1, "g", "t", -3).unwrap();
    let payload = encode_offset_value(0, -100);
    let rec = parse_message(&key, &payload).unwrap();
    assert_eq!(
        rec,
        OffsetRecord::OffsetCommit {
            group: "g".to_string(),
            topic: "t".to_string(),
            partition: -3,
            offset: -100,
        }
    );
}

#[test]
fn encoded_key_matches_wire_layout() {
    let key = encode_offset_key(0, "g1", "top", 2).unwrap();
    assert_eq!(key, commit_key());
    let payload = encode_offset_value(0, 10);
    assert_eq!(payload, vec![0x00, 0x00, 0x00, 0x00, 0x00, 0x00, 0x00, 0x00, 0x00, 0x0a]);
}

#[test]
fn encode_rejects_oversized_string() {
    let long = "x".repeat(40000);
    assert_eq!(encode_offset_key(0, &long, "t", 0), Err(LagError::MalformedRecord));
}

#[test]
fn read_str_reads_length_prefixed_text() {
    let data = vec![0x00, 0x02, b'h', b'i', 0xaa];
    let (s, end) = read_str(&data, 0).unwrap();
    assert_eq!(s, "hi");
    assert_eq!(end, 4);
    let (owned, end2) = read_string(&data, 0).unwrap();
    assert_eq!(owned, "hi".to_string());
    assert_eq!(end2, 4);
}

#[test]
fn read_str_truncated_is_malformed() {
    let data = vec![0x00, 0x05, b'h', b'i'];
    assert_eq!(read_str(&data, 0), Err(LagError::MalformedRecord));
    assert_eq!(read_string(&data, 0), Err(LagError::MalformedRecord));
}

#[test]
fn member_assignment_round_trip() {
    // version 1, one assignment: topic "t", two partitions [0, 1]
    let payload = vec![
        0x00, 0x01, // version
        0x00, 0x00, 0x00, 0x01, // assignment count
        0x00, 0x01, b't', // topic
        0x00, 0x00, 0x00, 0x02, // partition count
        0x00, 0x00, 0x00, 0x00, // partition 0
        0x00, 0x00, 0x00, 0x01, // partition 1
    ];
    let assigns = parse_member_assignment(&payload).unwrap();
    assert_eq!(
        assigns,
        vec![MemberAssignment { topic: "t".to_string(), partitions: vec![0, 1] }]
    );
}

#[test]
fn member_assignment_empty_list() {
    let payload = vec![0x00, 0x01, 0x00, 0x00, 0x00, 0x00];
    assert_eq!(parse_member_assignment(&payload).unwrap(), vec![]);
}

#[test]
fn member_assignment_negative_count_is_malformed() {
    let payload = vec![0x00, 0x01, 0xff, 0xff, 0xff, 0xff];
    assert_eq!(parse_member_assignment(&payload), Err(LagError::MalformedRecord));
}

#[test]
fn member_assignment_truncated_is_malformed() {
    // claims two assignments but holds only one
    let payload = vec![
        0x00, 0x01, 0x00, 0x00, 0x00, 0x02, 0x00, 0x01, b't', 0x00, 0x00, 0x00, 0x01, 0x00, 0x00,
        0x00, 0x05,
    ];
    assert_eq!(parse_member_assignment(&payload), Err(LagError::MalformedRecord));
}
