use glyfi::defs::{Challenge, Error, InteractionID};
use glyfi::token::{encode_token, fmt_u64, parse_token, AnnouncementToken};

fn token(
    action: InteractionID,
    challenge: Challenge,
    marker: u64,
    queue_id: Option<i64>,
) -> AnnouncementToken {
    AnnouncementToken { action, challenge, marker, queue_id }
}

#[test]
fn fmt_u64_canonical() {
    assert_eq!(fmt_u64(0), "0");
    assert_eq!(fmt_u64(7), "7");
    assert_eq!(fmt_u64(10), "10");
    assert_eq!(fmt_u64(12345), "12345");
    assert_eq!(fmt_u64(u64::MAX), "18446744073709551615");
}

#[test]
fn encode_without_queue_entry() {
    let t = token(InteractionID::ConfirmAnnouncement, Challenge::Glyph, 1000, None);
    assert_eq!(encode_token(&t), "0:0:1000");
    let t = token(InteractionID::CancelAnnouncement, Challenge::Ambigram, 55, None);
    assert_eq!(encode_token(&t), "1:1:55");
}

#[test]
fn encode_with_queue_entry() {
    let t = token(InteractionID::ConfirmAnnouncement, Challenge::Ambigram, 1000, Some(7));
    assert_eq!(encode_token(&t), "0:1:1000:7");
}

#[test]
fn parse_round_trip() {
    let cases = [
        token(InteractionID::ConfirmAnnouncement, Challenge::Glyph, 0, None),
        token(InteractionID::ConfirmAnnouncement, Challenge::Glyph, 1000, Some(1)),
        token(InteractionID::CancelAnnouncement, Challenge::Ambigram, u64::MAX, None),
        token(InteractionID::CancelAnnouncement, Challenge::Glyph, 42, Some(i64::MAX)),
    ];
    for t in cases {
        assert_eq!(parse_token(&encode_token(&t)), Ok(t));
    }
}

#[test]
fn parse_plain_fields() {
    assert_eq!(
        parse_token("1:0:12345"),
        Ok(token(InteractionID::CancelAnnouncement, Challenge::Glyph, 12345, None))
    );
    assert_eq!(
        parse_token("0:1:999:12"),
        Ok(token(
            InteractionID::ConfirmAnnouncement,
            Challenge::Ambigram,
            999,
            Some(12)
        ))
    );
}

#[test]
fn parse_rejects_wrong_field_count() {
    assert_eq!(parse_token(""), Err(Error::Validation));
    assert_eq!(parse_token("0"), Err(Error::Validation));
    assert_eq!(parse_token("0:1"), Err(Error::Validation));
    assert_eq!(parse_token("0:1:2:3:4"), Err(Error::Validation));
}

#[test]
fn parse_rejects_malformed_fields() {
    assert_eq!(parse_token("0:1:"), Err(Error::Validation));
    assert_eq!(parse_token(":1:2"), Err(Error::Validation));
    assert_eq!(parse_token("0:1:12x"), Err(Error::Validation));
    assert_eq!(parse_token("0: 1:2"), Err(Error::Validation));
    assert_eq!(parse_token("00:1:2"), Err(Error::Validation));
    assert_eq!(parse_token("0:1:-5"), Err(Error::Validation));
}

#[test]
fn parse_rejects_unknown_ids() {
    // Unknown action identifier.
    assert_eq!(parse_token("5:0:1"), Err(Error::Validation));
    // Unknown challenge identifier.
    assert_eq!(parse_token("0:2:1"), Err(Error::Validation));
}

#[test]
fn parse_rejects_out_of_range_values() {
    // One past the largest marker.
    assert_eq!(parse_token("0:0:18446744073709551616"), Err(Error::Validation));
    // One past the largest queue identity.
    assert_eq!(parse_token("0:0:1:9223372036854775808"), Err(Error::Validation));
    // The largest values themselves are accepted.
    assert_eq!(
        parse_token("0:0:18446744073709551615:9223372036854775807"),
        Ok(token(
            InteractionID::ConfirmAnnouncement,
            Challenge::Glyph,
            u64::MAX,
            Some(i64::MAX)
        ))
    );
}

#[test]
fn interaction_id_raw_values() {
    assert_eq!(InteractionID::ConfirmAnnouncement.raw(), 0);
    assert_eq!(InteractionID::CancelAnnouncement.raw(), 1);
    assert_eq!(InteractionID::from_raw(0), Some(InteractionID::ConfirmAnnouncement));
    assert_eq!(InteractionID::from_raw(1), Some(InteractionID::CancelAnnouncement));
    assert_eq!(InteractionID::from_raw(2), None);
}
