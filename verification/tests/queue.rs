use glyfi::defs::{Challenge, Error};
use glyfi::store::Store;

#[test]
fn queue_fifo_order() {
    let mut store = Store::new();
    let id_a = store.add_prompt(Challenge::Glyph, "a").unwrap();
    let id_b = store.add_prompt(Challenge::Glyph, "b").unwrap();
    assert!(id_a < id_b);
    let listing = store.get_prompts(Challenge::Glyph);
    assert_eq!(listing.len(), 2);
    assert_eq!(listing[0], (id_a, "a".to_owned()));
    assert_eq!(listing[1], (id_b, "b".to_owned()));
}

#[test]
fn queue_listing_is_per_challenge() {
    let mut store = Store::new();
    let id_a = store.add_prompt(Challenge::Glyph, "a").unwrap();
    let id_b = store.add_prompt(Challenge::Ambigram, "b").unwrap();
    let id_c = store.add_prompt(Challenge::Glyph, "c").unwrap();
    let glyphs = store.get_prompts(Challenge::Glyph);
    assert_eq!(glyphs, vec![(id_a, "a".to_owned()), (id_c, "c".to_owned())]);
    let ambigrams = store.get_prompts(Challenge::Ambigram);
    assert_eq!(ambigrams, vec![(id_b, "b".to_owned())]);
}

#[test]
fn queue_delete_idempotent() {
    let mut store = Store::new();
    let id_a = store.add_prompt(Challenge::Glyph, "a").unwrap();
    // Deleting reports a removal exactly once.
    assert_eq!(store.delete_prompt(id_a), Ok(true));
    assert_eq!(store.delete_prompt(id_a), Ok(false));
    assert_eq!(store.get_prompts(Challenge::Glyph).len(), 0);
}

#[test]
fn queue_delete_missing_id() {
    let mut store = Store::new();
    assert_eq!(store.delete_prompt(99), Ok(false));
}

#[test]
fn queue_lookup() {
    let mut store = Store::new();
    let id = store.add_prompt(Challenge::Ambigram, "mirror").unwrap();
    assert_eq!(store.get_prompt(id), Ok((Challenge::Ambigram, "mirror".to_owned())));
    assert_eq!(store.get_prompt(id + 1), Err(Error::NotFound));
}

#[test]
fn queue_ids_not_reused_after_delete() {
    let mut store = Store::new();
    let id_a = store.add_prompt(Challenge::Glyph, "a").unwrap();
    assert_eq!(store.delete_prompt(id_a), Ok(true));
    let id_b = store.add_prompt(Challenge::Glyph, "b").unwrap();
    assert!(id_b > id_a);
}
