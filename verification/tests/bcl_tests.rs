use space_engineers::bcl::{DateTime, DateTimeKind, Decimal, Guid, TimeSpan, TimeSpanScale};
use space_engineers::bits::{BitReader, BitWriter};
use space_engineers::wire::BitCodec;
use std::time::Duration;
use uuid::Uuid;

#[test]
fn test_timespan_from_duration_days() {
    let ts = TimeSpan::from_duration(Duration::from_secs(86400 * 7));
    assert_eq!(ts.0, 7);
    assert_eq!(ts.1, TimeSpanScale::Days);
}

#[test]
fn test_timespan_from_duration_roundtrip() {
    let ts = TimeSpan::from_duration(Duration::from_secs(86400 * 7));
    assert_eq!(ts.to_duration(), Duration::from_secs(86400 * 7));
}

#[test]
fn test_guid_roundtrip() {
    let uuid = Uuid::new_v4();
    let guid = Guid::from_uuid(&uuid);
    let roundtrip = guid.to_uuid();
    assert_eq!(uuid, roundtrip);
}

#[test]
fn guid_halves_are_little_endian() {
    let uuid = Uuid::from_bytes([1, 2, 3, 4, 5, 6, 7, 8, 9, 10, 11, 12, 13, 14, 15, 16]);
    let guid = Guid::from_uuid(&uuid);
    assert_eq!(guid.0, 0x0807060504030201);
    assert_eq!(guid.1, 0x100F0E0D0C0B0A09);
    assert_eq!(guid.to_le_bytes(), [1, 2, 3, 4, 5, 6, 7, 8, 9, 10, 11, 12, 13, 14, 15, 16]);
}

#[test]
fn guid_default_is_nil() {
    assert_eq!(Guid::default(), Guid::from_uuid(&Uuid::nil()));
    assert_eq!(Guid::default(), Guid(0, 0));
}

#[test]
fn timespan_units() {
    assert_eq!(TimeSpan::from_secs_nanos(7200, 0), TimeSpan(2, TimeSpanScale::Hours));
    assert_eq!(TimeSpan::from_secs_nanos(120, 0), TimeSpan(2, TimeSpanScale::Minutes));
    assert_eq!(TimeSpan::from_secs_nanos(61, 500), TimeSpan(61, TimeSpanScale::Seconds));
    assert_eq!(TimeSpan::from_secs_nanos(61, 2_000_000), TimeSpan(610_020_000, TimeSpanScale::Ticks));
    assert_eq!(TimeSpan::from_secs_nanos(0, 0), TimeSpan(0, TimeSpanScale::MinMax));
    assert_eq!(TimeSpan::from_duration(Duration::MAX), TimeSpan(i64::MAX, TimeSpanScale::MinMax));
    // A whole minute drops the fraction of a second.
    assert_eq!(TimeSpan::from_secs_nanos(60, 5), TimeSpan(1, TimeSpanScale::Minutes));
}

#[test]
fn timespan_to_duration() {
    assert_eq!(TimeSpan(3, TimeSpanScale::Milliseconds).to_duration(), Duration::from_millis(3));
    assert_eq!(TimeSpan(25, TimeSpanScale::Ticks).to_duration(), Duration::from_nanos(2500));
    assert_eq!(TimeSpan(i64::MAX, TimeSpanScale::MinMax).to_duration(), Duration::MAX);
    assert_eq!(TimeSpan(5, TimeSpanScale::MinMax).to_duration(), Duration::ZERO);
    assert_eq!(TimeSpan(2, TimeSpanScale::Hours).to_secs_nanos(), (7200, 0));
}

#[test]
fn timespan_ticks_round_trip() {
    let d = Duration::new(61, 2_000_100);
    assert_eq!(TimeSpan::from_duration(d).to_duration(), d);
}

#[test]
fn timespan_default() {
    assert_eq!(TimeSpan::default(), TimeSpan(0, TimeSpanScale::Seconds));
}

#[test]
fn datetime_from_timestamp_units() {
    let dt = DateTime::from_timestamp(86400 * 5);
    assert_eq!(dt, DateTime(5, TimeSpanScale::Days, DateTimeKind::Utc));
    let dt = DateTime::from_timestamp(3600 * 10);
    assert_eq!(dt, DateTime(10, TimeSpanScale::Hours, DateTimeKind::Utc));
    let dt = DateTime::from_timestamp(-120);
    assert_eq!(dt, DateTime(-2, TimeSpanScale::Minutes, DateTimeKind::Utc));
    let dt = DateTime::from_timestamp(1234567890);
    assert_eq!(dt, DateTime(1234567890, TimeSpanScale::Seconds, DateTimeKind::Utc));
    assert_eq!(dt.to_timestamp(), 1234567890);
}

#[test]
fn datetime_to_timestamp_truncates() {
    assert_eq!(DateTime(-1500, TimeSpanScale::Milliseconds, DateTimeKind::Utc).to_timestamp(), -1);
    assert_eq!(DateTime(25_000_000, TimeSpanScale::Ticks, DateTimeKind::Utc).to_timestamp(), 2);
    assert_eq!(DateTime(99, TimeSpanScale::MinMax, DateTimeKind::Utc).to_timestamp(), 0);
}

#[test]
fn datetime_parse_str() {
    assert_eq!(DateTime::parse_str(""), Some(DateTime::default()));
    assert_eq!(
        DateTime::parse_str("1970-01-06T00:00:00Z"),
        Some(DateTime(5, TimeSpanScale::Days, DateTimeKind::Utc))
    );
    assert_eq!(
        DateTime::parse_str("1970-01-01T10:00:00"),
        Some(DateTime(10, TimeSpanScale::Hours, DateTimeKind::Utc))
    );
    assert_eq!(
        DateTime::parse_str("1970-01-01T00:00:01.5"),
        Some(DateTime(1, TimeSpanScale::Seconds, DateTimeKind::Utc))
    );
    assert_eq!(DateTime::parse_str("yesterday"), None);
}

#[test]
fn datetime_wire_ticks() {
    let dt = DateTime(1, TimeSpanScale::Seconds, DateTimeKind::Utc);
    let mut w = BitWriter::new();
    dt.encode(&mut w);
    let bytes = w.to_bytes();
    assert_eq!(bytes, 10_000_000i64.to_le_bytes().to_vec());
    let mut r = BitReader::from_bytes(&bytes);
    let back = DateTime::decode(&mut r).unwrap();
    assert_eq!(back, DateTime(10_000_000, TimeSpanScale::Ticks, DateTimeKind::Utc));
    assert_eq!(back.to_timestamp(), 1);
}

#[test]
fn timespan_wire_ticks() {
    let ts = TimeSpan(3, TimeSpanScale::Milliseconds);
    let mut w = BitWriter::new();
    ts.encode(&mut w);
    let bytes = w.to_bytes();
    assert_eq!(bytes, 30_000i64.to_le_bytes().to_vec());
    let mut r = BitReader::from_bytes(&bytes);
    assert_eq!(TimeSpan::decode(&mut r).unwrap(), TimeSpan(30_000, TimeSpanScale::Ticks));
}

#[test]
fn guid_and_decimal_wire() {
    let g = Guid(0x0102030405060708, 0x1112131415161718);
    let d = Decimal { lo: 5, hi: 6, sign_scale: 0x0009 };
    let mut w = BitWriter::new();
    g.encode(&mut w);
    d.encode(&mut w);
    let bytes = w.to_bytes();
    assert_eq!(bytes.len(), 32);
    assert_eq!(bytes[0], 0x08);
    assert_eq!(bytes[16], 5);
    let mut r = BitReader::from_bytes(&bytes);
    assert_eq!(Guid::decode(&mut r).unwrap(), g);
    assert_eq!(Decimal::decode(&mut r).unwrap(), d);
}

#[test]
fn scale_numbers() {
    assert_eq!(TimeSpanScale::MinMax.id(), 15);
    assert_eq!(TimeSpanScale::from_id(5), Some(TimeSpanScale::Ticks));
    assert_eq!(TimeSpanScale::from_id(6), None);
    assert_eq!(DateTimeKind::from_id(2), Some(DateTimeKind::Local));
}

#[test]
fn timestamp_fits_marks_overflow() {
    assert!(DateTime(5, TimeSpanScale::Days, DateTimeKind::Utc).timestamp_fits());
    assert!(!DateTime(i64::MAX, TimeSpanScale::Days, DateTimeKind::Utc).timestamp_fits());
    assert!(!DateTime(i64::MIN, TimeSpanScale::Minutes, DateTimeKind::Utc).timestamp_fits());
    assert!(DateTime(i64::MAX, TimeSpanScale::Ticks, DateTimeKind::Utc).timestamp_fits());
}

#[test]
fn duration_fits_marks_overflow() {
    assert!(TimeSpan(7, TimeSpanScale::Days).duration_fits());
    assert!(!TimeSpan(i64::MAX, TimeSpanScale::Hours).duration_fits());
    assert!(!TimeSpan(-1, TimeSpanScale::Ticks).duration_fits());
    assert!(TimeSpan(-1, TimeSpanScale::Seconds).duration_fits());
}

#[test]
fn uuid_guid_uuid_is_the_same_uuid() {
    let uuid = Uuid::from_bytes([9, 8, 7, 6, 5, 4, 3, 2, 1, 0, 10, 11, 12, 13, 14, 15]);
    assert_eq!(Guid::from_uuid(&uuid).to_uuid(), uuid);
}

#[test]
fn test_datetime_from_chrono_days() {
    let chrono_dt = chrono::DateTime::<chrono::Utc>::from_timestamp(86400 * 5, 0).unwrap();
    let dt = DateTime::from_timestamp(chrono_dt.timestamp());
    assert_eq!(dt.0, 5);
    assert_eq!(dt.1, TimeSpanScale::Days);
    assert_eq!(dt.2, DateTimeKind::Utc);
}

#[test]
fn test_datetime_from_chrono_hours() {
    let chrono_dt = chrono::DateTime::<chrono::Utc>::from_timestamp(3600 * 10, 0).unwrap();
    let dt = DateTime::from_timestamp(chrono_dt.timestamp());
    assert_eq!(dt.0, 10);
    assert_eq!(dt.1, TimeSpanScale::Hours);
    assert_eq!(dt.2, DateTimeKind::Utc);
}

#[test]
fn test_datetime_roundtrip() {
    let chrono_dt = chrono::DateTime::<chrono::Utc>::from_timestamp(1234567890, 0).unwrap();
    let dt = DateTime::from_timestamp(chrono_dt.timestamp());
    let roundtrip = chrono::DateTime::<chrono::Utc>::from_timestamp(dt.to_timestamp(), 0).unwrap();
    assert_eq!(chrono_dt, roundtrip);
}
