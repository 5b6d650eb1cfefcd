use kafka_lag::datefmt::parse_date;
use kafka_lag::lag::plan_message;
use kafka_lag::lag::resolve_lag;
use kafka_lag::lag::PlannedStep;
use kafka_lag::records::LagError;
use kafka_lag::records::OffsetRecord;

fn sample_commit_key() -> Vec<u8> {
    vec![
        0x00, 0x00, 0x00, 0x02, b'g', b'1', 0x00, 0x03, b't', b'o', b'p', 0x00, 0x00, 0x00, 0x02,
    ]
}

#[test]
fn resolved_lag_is_watermark_minus_offset() {
    let rec = resolve_lag("g1".to_string(), "top".to_string(), 2, 10, 15).unwrap();
    assert_eq!(
        rec,
        OffsetRecord::GroupOffsetLag {
            group: "g1".to_string(),
            topic: "top".to_string(),
            partition: 2,
            offset: 10,
            lag: 5,
        }
    );
}

#[test]
fn lag_is_zero_when_caught_up() {
    let rec = resolve_lag("g".to_string(), "t".to_string(), 0, 21, 21).unwrap();
    assert!(matches!(rec, OffsetRecord::GroupOffsetLag { lag: 0, .. }));
}

#[test]
fn stale_watermark_gives_negative_lag() {
    let rec = resolve_lag("g".to_string(), "t".to_string(), 0, 9, 5).unwrap();
    assert!(matches!(rec, OffsetRecord::GroupOffsetLag { lag: -4, .. }));
}

#[test]
fn lag_outside_i64_is_not_resolved() {
    assert_eq!(resolve_lag("g".to_string(), "t".to_string(), 0, 1, i64::MIN), None);
}

#[test]
fn commit_message_plans_a_lookup() {
    let payload = vec![0x00, 0x00, 0x00, 0x00, 0x00, 0x00, 0x00, 0x00, 0x00, 0x0a];
    let step = plan_message(&sample_commit_key(), &payload);
    assert_eq!(
        step,
        PlannedStep::ResolveLag {
            group: "g1".to_string(),
            topic: "top".to_string(),
            partition: 2,
            offset: 10,
        }
    );
}

#[test]
fn tombstone_message_is_emitted_without_lookup() {
    let step = plan_message(&sample_commit_key(), &[]);
    assert_eq!(step, PlannedStep::EmitRecord(OffsetRecord::Tombstone));
}

#[test]
fn metadata_message_is_emitted_without_lookup() {
    let mut key = sample_commit_key();
    key[1] = 0x03;
    let step = plan_message(&key, &[0x01, 0x02]);
    assert_eq!(step, PlannedStep::EmitRecord(OffsetRecord::GroupMetadata));
}

#[test]
fn malformed_message_is_emitted_as_its_error() {
    let step = plan_message(&[0x00], &[]);
    assert_eq!(step, PlannedStep::EmitError(LagError::MalformedRecord));
}

#[test]
fn epoch_timestamp_renders_as_utc_text() {
    assert_eq!(parse_date(10_000).unwrap(), "1970-01-01 00:00:10".to_string());
    assert_eq!(parse_date(1_431_648_000_000).unwrap(), "2015-05-15 00:00:00".to_string());
}

#[test]
fn timestamp_before_epoch_truncates_toward_zero() {
    assert_eq!(parse_date(-1_500).unwrap(), "1969-12-31 23:59:59".to_string());
}

#[test]
fn timestamp_outside_date_range_is_none() {
    assert_eq!(parse_date(i64::MAX), None);
}
