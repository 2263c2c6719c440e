use glyfi::defs::Challenge;
use glyfi::Data;

#[test]
fn context_owns_the_store() {
    let mut data = Data::new();
    data.store.init_current_week(0).unwrap();
    data.store
        .add_submission(1, Challenge::Glyph, 7, "url", 0)
        .unwrap();
    assert_eq!(data.store.get_user_profile(7).glyphs_submissions, 1);
}
