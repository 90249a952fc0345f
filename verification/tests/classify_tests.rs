use briq_utils::classify::is_accessories;
use briq_utils::classify::is_pack;
use briq_utils::classify::is_unreleased;

#[test]
fn every_known_pack_number_is_a_pack() {
    for key in ["1507-1", "1510-1", "1616-1", "1969-2", "1977-1", "1983-1", "1999-1"] {
        assert!(is_pack(key));
    }
}

#[test]
fn other_numbers_are_not_packs() {
    assert!(!is_pack("1507-2"));
    assert!(!is_pack("9999-1"));
    assert!(!is_pack(""));
    assert!(!is_pack("1526-1"));
}

#[test]
fn unreleased_set_is_recognized() {
    assert!(is_unreleased("1526-1"));
    assert!(!is_unreleased("1507-1"));
    assert!(!is_unreleased(""));
}

#[test]
fn accessories_set_is_recognized() {
    assert!(is_accessories("6921-1"));
    assert!(!is_accessories("6921-2"));
    assert!(!is_accessories(""));
}
