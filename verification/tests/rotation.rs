use glyfi::rotation::{classify, Actions};
use glyfi::defs::Week;
use glyfi::defs::Week::{Extended, Regular, Special};

fn actions(announce_due: bool, panel_due: bool, hall_of_fame_due: bool) -> Actions {
    Actions { announce_due, panel_due, hall_of_fame_due }
}

#[test]
fn classify_spec_example() {
    // kind(w-2) extended suppresses only the hall of fame.
    assert_eq!(
        classify(Week::Extended, Week::Regular, Week::Regular),
        actions(true, true, false)
    );
}

#[test]
fn classify_all_combinations_regular_two_ago() {
    assert_eq!(classify(Regular, Regular, Regular), actions(true, true, true));
    assert_eq!(classify(Regular, Regular, Special), actions(false, true, true));
    assert_eq!(classify(Regular, Regular, Extended), actions(true, true, true));
    assert_eq!(classify(Regular, Special, Regular), actions(true, false, true));
    assert_eq!(classify(Regular, Special, Special), actions(false, false, true));
    assert_eq!(classify(Regular, Special, Extended), actions(true, false, true));
    assert_eq!(classify(Regular, Extended, Regular), actions(false, false, true));
    assert_eq!(classify(Regular, Extended, Special), actions(false, false, true));
    assert_eq!(classify(Regular, Extended, Extended), actions(false, false, true));
}

#[test]
fn classify_all_combinations_special_two_ago() {
    assert_eq!(classify(Special, Regular, Regular), actions(true, true, true));
    assert_eq!(classify(Special, Regular, Special), actions(false, true, true));
    assert_eq!(classify(Special, Regular, Extended), actions(true, true, true));
    assert_eq!(classify(Special, Special, Regular), actions(true, false, true));
    assert_eq!(classify(Special, Special, Special), actions(false, false, true));
    assert_eq!(classify(Special, Special, Extended), actions(true, false, true));
    assert_eq!(classify(Special, Extended, Regular), actions(false, false, true));
    assert_eq!(classify(Special, Extended, Special), actions(false, false, true));
    assert_eq!(classify(Special, Extended, Extended), actions(false, false, true));
}

#[test]
fn classify_all_combinations_extended_two_ago() {
    assert_eq!(classify(Extended, Regular, Regular), actions(true, true, false));
    assert_eq!(classify(Extended, Regular, Special), actions(false, true, false));
    assert_eq!(classify(Extended, Regular, Extended), actions(true, true, false));
    assert_eq!(classify(Extended, Special, Regular), actions(true, false, false));
    assert_eq!(classify(Extended, Special, Special), actions(false, false, false));
    assert_eq!(classify(Extended, Special, Extended), actions(true, false, false));
    assert_eq!(classify(Extended, Extended, Regular), actions(false, false, false));
    assert_eq!(classify(Extended, Extended, Special), actions(false, false, false));
    assert_eq!(classify(Extended, Extended, Extended), actions(false, false, false));
}

#[test]
fn raw_values() {
    assert_eq!(Week::Regular.raw(), 0);
    assert_eq!(Week::Special.raw(), 1);
    assert_eq!(Week::Extended.raw(), 2);
    assert_eq!(Week::from_raw(0), Some(Week::Regular));
    assert_eq!(Week::from_raw(1), Some(Week::Special));
    assert_eq!(Week::from_raw(2), Some(Week::Extended));
    assert_eq!(Week::from_raw(3), None);
    assert_eq!(Week::from_raw(-1), None);
}
