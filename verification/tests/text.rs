use glyfi::defs::{Challenge, Error};
use glyfi::text::{safe_truncate, trim_spaces};

#[test]
fn truncate_short_string_unchanged() {
    assert_eq!(safe_truncate("hello".to_owned(), 10), "hello");
    assert_eq!(safe_truncate("hello".to_owned(), 5), "hello");
    assert_eq!(safe_truncate(String::new(), 0), "");
}

#[test]
fn truncate_cuts_characters() {
    assert_eq!(safe_truncate("hello".to_owned(), 3), "hel");
    assert_eq!(safe_truncate("hello".to_owned(), 0), "");
}

#[test]
fn truncate_never_splits_a_character() {
    // Multibyte characters are kept or dropped whole.
    assert_eq!(safe_truncate("héllo".to_owned(), 2), "hé");
    assert_eq!(safe_truncate("ééé".to_owned(), 2), "éé");
}

#[test]
fn trim_strips_surrounding_whitespace() {
    assert_eq!(trim_spaces("  hello  "), "hello");
    assert_eq!(trim_spaces("\t\nhello\r\n"), "hello");
    assert_eq!(trim_spaces("hello"), "hello");
    assert_eq!(trim_spaces("he llo"), "he llo");
}

#[test]
fn trim_of_blank_input_is_empty() {
    assert_eq!(trim_spaces(""), "");
    assert_eq!(trim_spaces("   "), "");
    assert_eq!(trim_spaces("\t \r\n"), "");
}

#[test]
fn challenge_paths_and_raw_values() {
    assert_eq!(Challenge::Glyph.raw(), 0);
    assert_eq!(Challenge::Ambigram.raw(), 1);
    assert_eq!(
        Challenge::Glyph.announcement_image_path(),
        "./weekly_challenges/glyph_announcement.png"
    );
    assert_eq!(
        Challenge::Ambigram.announcement_image_path(),
        "./weekly_challenges/ambigram_announcement.png"
    );
    assert_eq!(Challenge::from_raw(0), Some(Challenge::Glyph));
    assert_eq!(Challenge::from_raw(1), Some(Challenge::Ambigram));
    assert_eq!(Challenge::from_raw(2), None);
}

#[test]
fn error_messages() {
    assert_eq!(Error::Validation.message(), "invalid input");
    assert_eq!(Error::Conflict.message(), "already exists");
    assert_eq!(Error::NotFound.message(), "not found");
    assert_eq!(Error::Storage.message(), "storage fault");
}
