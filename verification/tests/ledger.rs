use glyfi::defs::{Challenge, Error};
use glyfi::store::Store;

#[test]
fn current_week_singleton() {
    let mut store = Store::new();
    assert_eq!(store.current_week(), Err(Error::NotFound));
    assert_eq!(store.init_current_week(3), Ok(()));
    assert_eq!(store.current_week(), Ok(3));
    // A second initialization is rejected, never merged.
    assert_eq!(store.init_current_week(7), Err(Error::Conflict));
    assert_eq!(store.current_week(), Ok(3));
}

#[test]
fn current_week_rejects_negative() {
    let mut store = Store::new();
    assert_eq!(store.init_current_week(-1), Err(Error::Validation));
    assert_eq!(store.current_week(), Err(Error::NotFound));
}

#[test]
fn set_current_week_advances() {
    let mut store = Store::new();
    assert_eq!(store.set_current_week(4), Err(Error::NotFound));
    store.init_current_week(4).unwrap();
    assert_eq!(store.set_current_week(5), Ok(()));
    assert_eq!(store.current_week(), Ok(5));
    // Moving backwards is refused.
    assert_eq!(store.set_current_week(4), Err(Error::Validation));
    assert_eq!(store.current_week(), Ok(5));
}

#[test]
fn ledger_requires_current_week() {
    let mut store = Store::new();
    assert_eq!(
        store.add_submission(42, Challenge::Glyph, 9, "url", 0),
        Err(Error::NotFound)
    );
    assert_eq!(store.remove_submission(42, Challenge::Glyph), Err(Error::NotFound));
}

#[test]
fn ledger_round_trip() {
    let mut store = Store::new();
    store.init_current_week(1).unwrap();
    assert_eq!(store.add_submission(42, Challenge::Glyph, 7, "url", 100), Ok(()));
    assert_eq!(store.get_user_profile(7).glyphs_submissions, 1);
    assert_eq!(store.remove_submission(42, Challenge::Glyph), Ok(()));
    assert_eq!(store.get_user_profile(7).glyphs_submissions, 0);
    // A second removal is a silent no-op, not an error.
    assert_eq!(store.remove_submission(42, Challenge::Glyph), Ok(()));
    assert_eq!(store.get_user_profile(7).glyphs_submissions, 0);
}

#[test]
fn ledger_duplicate_key_conflicts() {
    let mut store = Store::new();
    store.init_current_week(1).unwrap();
    assert_eq!(store.add_submission(42, Challenge::Glyph, 7, "url", 100), Ok(()));
    assert_eq!(
        store.add_submission(42, Challenge::Glyph, 7, "other", 101),
        Err(Error::Conflict)
    );
    // The same message in the other challenge is a different key.
    assert_eq!(store.add_submission(42, Challenge::Ambigram, 7, "url", 100), Ok(()));
    assert_eq!(store.get_user_profile(7).glyphs_submissions, 1);
    assert_eq!(store.get_user_profile(7).ambigrams_submissions, 1);
}

#[test]
fn ledger_scoped_to_current_week() {
    let mut store = Store::new();
    store.init_current_week(5).unwrap();
    store.add_submission(42, Challenge::Glyph, 7, "url", 100).unwrap();
    // The week rolls over; the old entry is immutable via this path.
    store.set_current_week(6).unwrap();
    assert_eq!(store.remove_submission(42, Challenge::Glyph), Ok(()));
    assert_eq!(store.get_user_profile(7).glyphs_submissions, 1);
    // The same message can be entered afresh for the new week.
    assert_eq!(store.add_submission(42, Challenge::Glyph, 7, "url", 200), Ok(()));
    assert_eq!(store.get_user_profile(7).glyphs_submissions, 2);
}
