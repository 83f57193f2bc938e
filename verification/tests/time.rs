use grad::command::{TimestampCommand, TimestampFormat};
use grad::time::{encoding, zone, TimestampEncoding};

#[test]
fn zone_is_local_unless_named() {
    assert_eq!(zone(None), TimestampCommand::Local);
    assert_eq!(zone(Some(TimestampCommand::Local)), TimestampCommand::Local);
    assert_eq!(zone(Some(TimestampCommand::Utc)), TimestampCommand::Utc);
}

#[test]
fn encoding_is_civil_unless_named() {
    assert_eq!(encoding(None), TimestampEncoding::Civil);
    assert_eq!(encoding(Some(TimestampFormat::ISO8601)), TimestampEncoding::Rfc3339);
    assert_eq!(encoding(Some(TimestampFormat::RFC3339)), TimestampEncoding::Rfc3339);
    assert_eq!(encoding(Some(TimestampFormat::RFC2822)), TimestampEncoding::Rfc2822);
}
