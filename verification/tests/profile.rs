use glyfi::defs::{Challenge, Error};
use glyfi::store::Store;

#[test]
fn profile_defaults_for_unknown_user() {
    let store = Store::new();
    let profile = store.get_user_profile(12345);
    assert_eq!(profile.nickname, None);
    assert_eq!(profile.glyphs_first, 0);
    assert_eq!(profile.glyphs_second, 0);
    assert_eq!(profile.glyphs_third, 0);
    assert_eq!(profile.ambigrams_first, 0);
    assert_eq!(profile.ambigrams_second, 0);
    assert_eq!(profile.ambigrams_third, 0);
    assert_eq!(profile.highest_ranking_glyphs, 0);
    assert_eq!(profile.highest_ranking_ambigrams, 0);
    assert_eq!(profile.glyphs_submissions, 0);
    assert_eq!(profile.ambigrams_submissions, 0);
}

#[test]
fn nickname_set_and_update() {
    let mut store = Store::new();
    assert_eq!(store.set_nickname(7, "ampersand"), Ok(()));
    assert_eq!(store.get_user_profile(7).nickname, Some("ampersand".to_owned()));
    assert_eq!(store.set_nickname(7, "pilcrow"), Ok(()));
    assert_eq!(store.get_user_profile(7).nickname, Some("pilcrow".to_owned()));
}

#[test]
fn nickname_validation() {
    let mut store = Store::new();
    assert_eq!(store.set_nickname(7, ""), Err(Error::Validation));
    let long = "x".repeat(201);
    assert_eq!(store.set_nickname(7, &long), Err(Error::Validation));
    let just_fits = "x".repeat(200);
    assert_eq!(store.set_nickname(7, &just_fits), Ok(()));
}

#[test]
fn placement_credits_accumulate() {
    let mut store = Store::new();
    store.credit_placement(7, Challenge::Glyph, 2).unwrap();
    store.credit_placement(7, Challenge::Glyph, 2).unwrap();
    store.credit_placement(7, Challenge::Glyph, 1).unwrap();
    store.credit_placement(7, Challenge::Ambigram, 3).unwrap();
    let profile = store.get_user_profile(7);
    assert_eq!(profile.glyphs_first, 1);
    assert_eq!(profile.glyphs_second, 2);
    assert_eq!(profile.glyphs_third, 0);
    assert_eq!(profile.ambigrams_third, 1);
    // The highest ranking improves from 2 to 1 and never regresses.
    assert_eq!(profile.highest_ranking_glyphs, 1);
    assert_eq!(profile.highest_ranking_ambigrams, 3);
}

#[test]
fn placement_rank_validation() {
    let mut store = Store::new();
    assert_eq!(store.credit_placement(7, Challenge::Glyph, 0), Err(Error::Validation));
    assert_eq!(store.credit_placement(7, Challenge::Glyph, 4), Err(Error::Validation));
}

#[test]
fn profile_counts_all_weeks() {
    let mut store = Store::new();
    store.init_current_week(1).unwrap();
    store.add_submission(1, Challenge::Glyph, 7, "a", 0).unwrap();
    store.set_current_week(2).unwrap();
    store.add_submission(2, Challenge::Glyph, 7, "b", 0).unwrap();
    store.add_submission(3, Challenge::Ambigram, 7, "c", 0).unwrap();
    store.add_submission(4, Challenge::Glyph, 8, "d", 0).unwrap();
    let profile = store.get_user_profile(7);
    assert_eq!(profile.glyphs_submissions, 2);
    assert_eq!(profile.ambigrams_submissions, 1);
    assert_eq!(store.get_user_profile(8).glyphs_submissions, 1);
}
