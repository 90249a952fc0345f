use briq_utils::model::convert;
use briq_utils::tables::Data;
use briq_utils::tables::InventoryMinifigRecord;
use briq_utils::tables::InventoryPartRecord;
use briq_utils::tables::InventoryRecord;
use briq_utils::tables::MinifigRecord;
use briq_utils::tables::PartRecord;
use briq_utils::tables::SetRecord;

fn part_record(num: &str) -> PartRecord {
    PartRecord {
        part_num: String::from(num),
        name: String::from("a part"),
        part_cat_id: 1,
        part_material: String::from("Plastic"),
    }
}

fn inv_part(inventory_id: u32, part_num: &str, color_id: i32, quantity: u16) -> InventoryPartRecord {
    InventoryPartRecord {
        inventory_id,
        part_num: String::from(part_num),
        color_id,
        quantity,
        is_spare: String::from("False"),
        img_url: String::from("https://cdn.rebrickable.com/media/parts/x.jpg"),
    }
}

fn sample_data() -> Data {
    Data {
        colors: Vec::new(),
        inventories: vec![
            InventoryRecord { id: 100, version: 2, set_num: String::from("7140-1") },
            InventoryRecord { id: 101, version: 1, set_num: String::from("7140-1") },
        ],
        inventories_minifigs: vec![
            InventoryMinifigRecord {
                inventory_id: 100,
                fig_num: String::from("fig-0001"),
                quantity: 2,
            },
        ],
        inventories_parts: vec![
            inv_part(100, "3001", 4, 6),
            inv_part(100, "9999", 0, 1),
            inv_part(101, "3002", 0, 3),
        ],
        minifigs: vec![
            MinifigRecord {
                fig_num: String::from("fig-0001"),
                name: String::from("pilot"),
                num_parts: 4,
                img_url: String::from("https://cdn.rebrickable.com/media/figs/f.jpg"),
            },
        ],
        parts: vec![part_record("3001"), part_record("3002")],
        sets: vec![
            SetRecord {
                set_num: String::from("7140-1"),
                name: String::from("X-wing Fighter"),
                year: 1999,
                theme_id: 158,
                num_parts: 266,
                img_url: String::from(""),
            },
            SetRecord {
                set_num: String::from("1507-1"),
                name: String::from("Pack"),
                year: 1990,
                theme_id: 1,
                num_parts: 10,
                img_url: String::from(""),
            },
        ],
        themes: Vec::new(),
    }
}

#[test]
fn converts_parts_and_minifigs_by_rename_and_url_rewrite() {
    let (model, _diags) = convert(sample_data()).unwrap();
    assert_eq!(model.parts.len(), 2);
    assert_eq!(model.parts[0].number, "3001");
    assert_eq!(model.parts[0].name, "a part");
    assert_eq!(model.parts[0].part_category_id, 1);
    assert_eq!(model.parts[0].material, "Plastic");
    assert_eq!(model.minifigs.len(), 1);
    assert_eq!(model.minifigs[0].number, "fig-0001");
    assert_eq!(model.minifigs[0].parts_count, 4);
    assert_eq!(
        model.minifigs[0].img_url,
        Some(String::from("https://briq-assets.spe.quebec/figs/f.jpg"))
    );
}

#[test]
fn builds_versions_in_source_inventory_order() {
    let (model, _diags) = convert(sample_data()).unwrap();
    let set = &model.sets[0];
    assert_eq!(set.number, "7140-1");
    assert_eq!(set.versions.len(), 2);
    assert_eq!(set.versions[0].version, 2);
    assert_eq!(set.versions[1].version, 1);
    assert_eq!(set.versions[0].minifigs.len(), 1);
    assert_eq!(set.versions[0].minifigs[0].number, "fig-0001");
    assert_eq!(set.versions[0].minifigs[0].quantity, 2);
    assert_eq!(set.versions[1].minifigs.len(), 0);
    assert_eq!(set.versions[1].parts.len(), 1);
    assert_eq!(set.versions[1].parts[0].number, "3002");
    assert_eq!(set.versions[1].parts[0].quantity, 3);
}

#[test]
fn dangling_part_reference_is_dropped_and_reported() {
    let (model, diags) = convert(sample_data()).unwrap();
    let v = &model.sets[0].versions[0];
    assert_eq!(v.parts.len(), 1);
    assert_eq!(v.parts[0].number, "3001");
    assert_eq!(diags.len(), 1);
    assert_eq!(diags[0].version, 2);
    assert_eq!(diags[0].part_number, "9999");
}

#[test]
fn set_without_inventories_has_empty_version_list() {
    let (model, _diags) = convert(sample_data()).unwrap();
    let pack = &model.sets[1];
    assert_eq!(pack.number, "1507-1");
    assert_eq!(pack.versions.len(), 0);
    assert!(pack.is_pack);
    assert!(!pack.is_unreleased);
    assert!(!pack.is_accessories);
}

#[test]
fn empty_set_image_url_becomes_no_url() {
    let (model, _diags) = convert(sample_data()).unwrap();
    assert_eq!(model.sets[0].img_url, None);
}

#[test]
fn part_row_conversions_are_applied() {
    let (model, _diags) = convert(sample_data()).unwrap();
    let p = &model.sets[0].versions[0].parts[0];
    assert_eq!(p.color_id, 4);
    assert_eq!(p.quantity, 6);
    assert!(!p.is_spare);
    assert_eq!(
        p.img_url,
        Some(String::from("https://briq-assets.spe.quebec/parts/x.jpg"))
    );
}

#[test]
fn negative_color_on_kept_row_aborts_the_run() {
    let mut data = sample_data();
    data.inventories_parts.push(inv_part(101, "3001", -5, 1));
    let r = convert(data);
    let e = r.unwrap_err();
    assert_eq!(e.part_number, "3001");
    assert_eq!(e.color_id, -5);
}

#[test]
fn negative_color_on_dangling_row_is_only_reported() {
    let mut data = sample_data();
    data.inventories_parts.push(inv_part(101, "no-such-part", -5, 1));
    let (model, diags) = convert(data).unwrap();
    assert_eq!(model.sets[0].versions[1].parts.len(), 1);
    assert_eq!(diags.len(), 2);
    assert_eq!(diags[1].version, 1);
    assert_eq!(diags[1].part_number, "no-such-part");
}

#[test]
fn conversion_is_deterministic() {
    let (m1, d1) = convert(sample_data()).unwrap();
    let (m2, d2) = convert(sample_data()).unwrap();
    assert_eq!(m1.parts.len(), m2.parts.len());
    assert_eq!(m1.minifigs.len(), m2.minifigs.len());
    assert_eq!(m1.sets.len(), m2.sets.len());
    for (s1, s2) in m1.sets.iter().zip(m2.sets.iter()) {
        assert_eq!(s1.number, s2.number);
        assert_eq!(s1.versions.len(), s2.versions.len());
        for (v1, v2) in s1.versions.iter().zip(s2.versions.iter()) {
            assert_eq!(v1.version, v2.version);
            assert_eq!(v1.parts, v2.parts);
            assert_eq!(v1.minifigs.len(), v2.minifigs.len());
        }
    }
    assert_eq!(d1.len(), d2.len());
    for (a, b) in d1.iter().zip(d2.iter()) {
        assert_eq!(a.version, b.version);
        assert_eq!(a.part_number, b.part_number);
    }
}

#[test]
fn last_version_accessors_return_the_newest_materialized_lists() {
    let (model, _diags) = convert(sample_data()).unwrap();
    let set = &model.sets[0];
    let minifigs = set.minifigs();
    let parts = set.parts();
    assert_eq!(minifigs.len(), 0);
    assert_eq!(parts.len(), 1);
    assert_eq!(parts[0].number, "3002");
}
