use glyfi::defs::{Challenge, Error, Week};
use glyfi::rotation::ActionKind;
use glyfi::store::Store;

#[test]
fn weekinfo_requires_a_record() {
    let mut store = Store::new();
    assert!(store.weekinfo(None).is_err());
    store.init_current_week(2).unwrap();
    assert_eq!(store.weekinfo(None).unwrap_err(), Error::NotFound);
    store.record_week_kind(2, Challenge::Glyph, Week::Special).unwrap();
    let info = store.weekinfo(None).unwrap();
    assert_eq!(info.week, 2);
    assert_eq!(info.glyph_challenge_kind, Some(Week::Special));
    assert_eq!(info.ambigram_challenge_kind, None);
    assert_eq!(info.glyph_prompt, None);
}

#[test]
fn weekinfo_by_explicit_week() {
    let mut store = Store::new();
    store.record_week_kind(9, Challenge::Ambigram, Week::Extended).unwrap();
    store.set_week_prompt(9, Challenge::Ambigram, "symmetry").unwrap();
    let info = store.weekinfo(Some(9)).unwrap();
    assert_eq!(info.week, 9);
    assert_eq!(info.ambigram_challenge_kind, Some(Week::Extended));
    assert_eq!(info.ambigram_prompt, Some("symmetry".to_owned()));
    assert_eq!(store.weekinfo(Some(8)).unwrap_err(), Error::NotFound);
}

#[test]
fn week_kind_is_immutable() {
    let mut store = Store::new();
    store.record_week_kind(3, Challenge::Glyph, Week::Regular).unwrap();
    assert_eq!(
        store.record_week_kind(3, Challenge::Glyph, Week::Special),
        Err(Error::Conflict)
    );
    // The other challenge of the same week is untouched.
    assert_eq!(store.record_week_kind(3, Challenge::Ambigram, Week::Special), Ok(()));
}

#[test]
fn week_prompt_may_be_overwritten() {
    let mut store = Store::new();
    store.set_week_prompt(3, Challenge::Glyph, "first").unwrap();
    store.set_week_prompt(3, Challenge::Glyph, "second").unwrap();
    let info = store.weekinfo(Some(3)).unwrap();
    assert_eq!(info.glyph_prompt, Some("second".to_owned()));
}

#[test]
fn action_message_set_once() {
    let mut store = Store::new();
    store
        .record_action_message(3, Challenge::Glyph, ActionKind::Announcement, 1111)
        .unwrap();
    assert_eq!(
        store.record_action_message(3, Challenge::Glyph, ActionKind::Announcement, 2222),
        Err(Error::Conflict)
    );
    // A different action of the same week and challenge is still open.
    assert_eq!(
        store.record_action_message(3, Challenge::Glyph, ActionKind::Panel, 2222),
        Ok(())
    );
}

#[test]
fn week_record_rejects_negative_week() {
    let mut store = Store::new();
    assert_eq!(
        store.record_week_kind(-1, Challenge::Glyph, Week::Regular),
        Err(Error::Validation)
    );
    assert_eq!(
        store.set_week_prompt(-1, Challenge::Glyph, "p"),
        Err(Error::Validation)
    );
}

#[test]
fn actions_due_defaults_to_regular_history() {
    let mut store = Store::new();
    assert_eq!(store.actions_due(Challenge::Glyph).unwrap_err(), Error::NotFound);
    store.init_current_week(0).unwrap();
    // No history at all: nothing is suppressed.
    let actions = store.actions_due(Challenge::Glyph).unwrap();
    assert!(actions.announce_due);
    assert!(actions.panel_due);
    assert!(actions.hall_of_fame_due);
}

#[test]
fn actions_due_reads_recorded_kinds() {
    let mut store = Store::new();
    store.init_current_week(10).unwrap();
    store.record_week_kind(8, Challenge::Glyph, Week::Extended).unwrap();
    store.record_week_kind(9, Challenge::Glyph, Week::Special).unwrap();
    store.record_week_kind(10, Challenge::Glyph, Week::Regular).unwrap();
    let actions = store.actions_due(Challenge::Glyph).unwrap();
    // Previous week special: the panel is skipped; two weeks ago
    // extended: the hall of fame is skipped.
    assert!(actions.announce_due);
    assert!(!actions.panel_due);
    assert!(!actions.hall_of_fame_due);
    // The ambigram track has no recorded kinds and defaults to regular.
    let other = store.actions_due(Challenge::Ambigram).unwrap();
    assert!(other.announce_due && other.panel_due && other.hall_of_fame_due);
}
