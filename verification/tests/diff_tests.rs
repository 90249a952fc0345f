use briq_utils::diff::intersection_all;
use briq_utils::diff::process;
use briq_utils::diff::unique_parts;
use briq_utils::model::SetPart;

fn part(number: &str, color_id: u32, quantity: u16) -> SetPart {
    SetPart {
        number: String::from(number),
        color_id,
        quantity,
        is_spare: false,
        img_url: None,
    }
}

fn copy_all(v: &[SetPart]) -> Vec<SetPart> {
    v.iter().map(|p| p.duplicate()).collect()
}

#[test]
fn set_part_equality_is_structural() {
    assert_eq!(part("3001", 4, 2), part("3001", 4, 2));
    assert_ne!(part("3001", 4, 2), part("3001", 5, 2));
    assert_ne!(part("3001", 4, 2), part("3001", 4, 3));
    assert_ne!(part("3001", 4, 2), part("3002", 4, 2));
    let mut spare = part("3001", 4, 2);
    spare.is_spare = true;
    assert_ne!(part("3001", 4, 2), spare);
}

#[test]
fn diff_of_no_versions_is_empty() {
    let r = process(Vec::new());
    assert_eq!(r.len(), 1);
    assert!(r[0].is_empty());
}

#[test]
fn diff_of_one_version_is_all_common() {
    let a = vec![part("p1", 1, 1), part("p2", 2, 1)];
    let r = process(vec![copy_all(&a)]);
    assert_eq!(r.len(), 2);
    assert!(r[0].is_empty());
    assert_eq!(r[1], a);
}

#[test]
fn diff_of_duplicate_versions_is_all_common() {
    let a = vec![part("p1", 1, 1), part("p2", 2, 1)];
    let r = process(vec![copy_all(&a), copy_all(&a)]);
    assert_eq!(r.len(), 3);
    assert!(r[0].is_empty());
    assert!(r[1].is_empty());
    assert_eq!(r[2], a);
}

#[test]
fn diff_of_three_overlapping_versions() {
    let p1 = part("p1", 1, 1);
    let p2 = part("p2", 2, 1);
    let p3 = part("p3", 3, 1);
    let p4 = part("p4", 4, 1);
    let v1 = vec![p1.duplicate(), p2.duplicate()];
    let v2 = vec![p2.duplicate(), p3.duplicate()];
    let v3 = vec![p2.duplicate(), p4.duplicate()];
    let r = process(vec![v1, v2, v3]);
    assert_eq!(r.len(), 4);
    assert_eq!(r[0], vec![p1.duplicate()]);
    assert_eq!(r[1], vec![p3.duplicate()]);
    assert_eq!(r[2], vec![p4.duplicate()]);
    assert_eq!(r[3], vec![p2.duplicate()]);
}

#[test]
fn intersection_of_empty_family_is_empty() {
    assert!(intersection_all(&Vec::new()).is_empty());
}

#[test]
fn intersection_collapses_duplicates() {
    let a = vec![part("p1", 1, 1), part("p1", 1, 1), part("p2", 2, 1)];
    let b = vec![part("p2", 2, 1), part("p1", 1, 1)];
    let r = intersection_all(&vec![a, b]);
    assert_eq!(r, vec![part("p1", 1, 1), part("p2", 2, 1)]);
}

#[test]
fn intersection_is_empty_when_any_version_is_empty() {
    let a = vec![part("p1", 1, 1)];
    let b: Vec<SetPart> = Vec::new();
    let r = intersection_all(&vec![a, b]);
    assert!(r.is_empty());
}

#[test]
fn unique_parts_keeps_order_and_multiplicity() {
    let input = vec![part("p1", 1, 1), part("p2", 2, 1), part("p1", 1, 1)];
    let inter = vec![part("p2", 2, 1)];
    let r = unique_parts(&input, &inter);
    assert_eq!(r, vec![part("p1", 1, 1), part("p1", 1, 1)]);
}

#[test]
fn quantity_differences_make_distinct_elements() {
    let v1 = vec![part("p1", 1, 1)];
    let v2 = vec![part("p1", 1, 2)];
    let r = process(vec![v1, v2]);
    assert_eq!(r.len(), 3);
    assert_eq!(r[0], vec![part("p1", 1, 1)]);
    assert_eq!(r[1], vec![part("p1", 1, 2)]);
    assert!(r[2].is_empty());
}
