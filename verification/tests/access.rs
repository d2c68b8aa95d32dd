use lumen::Access;

/// Every state a user can act on has to say what to do about it.
#[test]
fn only_granted_has_nothing_to_fix() {
    assert!(Access::Granted.fix().is_none());
    assert!(Access::Denied.fix().unwrap().contains("Turn it on"));
    assert!(Access::Unknown.fix().unwrap().contains("prompt"));
}

#[test]
fn status_codes_map_onto_the_three_answers() {
    assert_eq!(Access::from_code(0), Access::Granted);
    assert_eq!(Access::from_code(1), Access::Denied);
    assert_eq!(Access::from_code(2), Access::Unknown);
    assert_eq!(Access::from_code(-7), Access::Unknown);
}
