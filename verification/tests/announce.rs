use glyfi::announce::{
    confirm_announcement, make_token, ConfirmOutcome, PromptSource,
};
use glyfi::defs::{Challenge, Error};
use glyfi::store::Store;

#[test]
fn staleness_gate() {
    let mut store = Store::new();
    store.init_current_week(1).unwrap();
    let pending = store
        .prepare_announcement(Challenge::Glyph, PromptSource::AdHoc("waves".to_owned()))
        .unwrap();
    // The image is generated; its marker is captured in the token.
    let token = make_token(&pending, 1000);
    // The image is regenerated afterwards: the marker moves to 1050 and
    // the old token must be refused.
    assert_eq!(confirm_announcement(&token, 1050), ConfirmOutcome::Stale);
    // A token matching the current marker is accepted.
    assert_eq!(confirm_announcement(&token, 1000), ConfirmOutcome::Confirmed);
}

#[test]
fn ad_hoc_prompt_is_persisted() {
    let mut store = Store::new();
    store.init_current_week(4).unwrap();
    let pending = store
        .prepare_announcement(Challenge::Ambigram, PromptSource::AdHoc("loop".to_owned()))
        .unwrap();
    assert_eq!(pending.challenge, Challenge::Ambigram);
    assert_eq!(pending.prompt, "loop");
    assert_eq!(pending.queue_id, None);
    let info = store.weekinfo(Some(4)).unwrap();
    assert_eq!(info.ambigram_prompt, Some("loop".to_owned()));
}

#[test]
fn ad_hoc_prompt_requires_current_week() {
    let mut store = Store::new();
    assert_eq!(
        store
            .prepare_announcement(Challenge::Glyph, PromptSource::AdHoc("waves".to_owned()))
            .unwrap_err(),
        Error::NotFound
    );
}

#[test]
fn queued_prompt_stays_in_queue() {
    let mut store = Store::new();
    store.init_current_week(4).unwrap();
    let id = store.add_prompt(Challenge::Glyph, "spiral").unwrap();
    let pending = store
        .prepare_announcement(Challenge::Glyph, PromptSource::Queued(id))
        .unwrap();
    assert_eq!(pending.prompt, "spiral");
    assert_eq!(pending.queue_id, Some(id));
    // Queue removal is the caller's responsibility, distinct from
    // announcement commitment.
    assert_eq!(store.get_prompts(Challenge::Glyph).len(), 1);
}

#[test]
fn queued_prompt_must_match_challenge() {
    let mut store = Store::new();
    store.init_current_week(4).unwrap();
    let id = store.add_prompt(Challenge::Glyph, "spiral").unwrap();
    assert_eq!(
        store
            .prepare_announcement(Challenge::Ambigram, PromptSource::Queued(id))
            .unwrap_err(),
        Error::Validation
    );
    assert_eq!(
        store
            .prepare_announcement(Challenge::Glyph, PromptSource::Queued(id + 1))
            .unwrap_err(),
        Error::NotFound
    );
}

#[test]
fn cancel_removes_originating_queue_entry() {
    let mut store = Store::new();
    store.init_current_week(4).unwrap();
    let id = store.add_prompt(Challenge::Glyph, "spiral").unwrap();
    let pending = store
        .prepare_announcement(Challenge::Glyph, PromptSource::Queued(id))
        .unwrap();
    let token = make_token(&pending, 1000);
    assert_eq!(store.cancel_announcement(&token), Ok(true));
    assert_eq!(store.get_prompts(Challenge::Glyph).len(), 0);
    // Cancelling again finds nothing to remove.
    assert_eq!(store.cancel_announcement(&token), Ok(false));
}

#[test]
fn cancel_without_queue_entry() {
    let mut store = Store::new();
    store.init_current_week(4).unwrap();
    let pending = store
        .prepare_announcement(Challenge::Glyph, PromptSource::AdHoc("waves".to_owned()))
        .unwrap();
    let token = make_token(&pending, 1000);
    assert_eq!(store.cancel_announcement(&token), Ok(false));
}
