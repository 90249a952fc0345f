use briq_utils::generator::generate_colors;
use briq_utils::generator::generate_part_categories;
use briq_utils::generator::generate_swift_code;
use briq_utils::generator::sanitize_and_case;
use briq_utils::strutil::pluralize;
use briq_utils::strutil::str_eq;
use briq_utils::strutil::u64_to_dec;
use briq_utils::tables::PartCategoryRecord;

#[test]
fn decimal_rendering_is_exact() {
    assert_eq!(u64_to_dec(0), "0");
    assert_eq!(u64_to_dec(7), "7");
    assert_eq!(u64_to_dec(10), "10");
    assert_eq!(u64_to_dec(1234567890), "1234567890");
}

#[test]
fn string_equality_compares_characters() {
    assert!(str_eq("abc", "abc"));
    assert!(!str_eq("abc", "abd"));
    assert!(!str_eq("abc", "abcd"));
    assert!(str_eq("", ""));
}

#[test]
fn pluralize_one_keeps_the_word() {
    assert_eq!(pluralize(1, "set"), "1 set");
}

#[test]
fn pluralize_many_inflects_the_word() {
    assert_eq!(pluralize(2, "set"), "2 sets");
    assert_eq!(pluralize(0, "version"), "0 versions");
    assert_eq!(pluralize(3, "minifig"), "3 minifigs");
}

#[test]
fn sanitize_and_case_camels_plain_words() {
    assert_eq!(sanitize_and_case("Hello world"), "helloWorld");
}

#[test]
fn sanitize_and_case_spells_out_punctuation() {
    assert_eq!(sanitize_and_case("Technic & Pneumatics"), "technicAndPneumatics");
    assert_eq!(sanitize_and_case("Duplo, Town"), "duploTown");
    assert_eq!(sanitize_and_case("Who's #1!"), "whosNumber1Exclam");
}

#[test]
fn generates_enum_text_for_categories() {
    let cats = vec![
        PartCategoryRecord { id: 1, name: String::from("Baseplates") },
        PartCategoryRecord { id: 27, name: String::from("Technic & Pneumatics") },
    ];
    let out = generate_part_categories(cats);
    assert_eq!(
        out,
        "enum PartCategory: Int {\n   case baseplates = 1\n   case technicAndPneumatics = 27\n}"
    );
}

#[test]
fn generates_empty_enum_for_no_categories() {
    assert_eq!(generate_part_categories(Vec::new()), "enum PartCategory: Int {\n}");
}

#[test]
fn generates_nothing_for_colors() {
    assert_eq!(generate_colors(Vec::new()), "");
}

#[test]
fn generates_both_texts_at_once() {
    let cats = vec![PartCategoryRecord { id: 2, name: String::from("Bricks") }];
    let (pc, colors) = generate_swift_code(cats, Vec::new());
    assert_eq!(pc, "enum PartCategory: Int {\n   case bricks = 2\n}");
    assert_eq!(colors, "");
}
