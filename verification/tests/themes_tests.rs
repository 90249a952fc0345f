use briq_utils::tables::ThemeRecord;
use briq_utils::themes::get_themes_tree_depth;

fn theme(id: u32, parent_id: Option<u32>) -> ThemeRecord {
    ThemeRecord { id, name: String::from("theme"), parent_id }
}

#[test]
fn empty_theme_table_has_depth_zero() {
    let themes: Vec<ThemeRecord> = Vec::new();
    assert_eq!(get_themes_tree_depth(&themes).unwrap(), 0);
}

#[test]
fn single_root_has_depth_one() {
    let themes = vec![theme(1, None)];
    assert_eq!(get_themes_tree_depth(&themes).unwrap(), 1);
}

#[test]
fn chain_of_five_has_depth_five() {
    let themes = vec![
        theme(1, None),
        theme(2, Some(1)),
        theme(3, Some(2)),
        theme(4, Some(3)),
        theme(5, Some(4)),
    ];
    assert_eq!(get_themes_tree_depth(&themes).unwrap(), 5);
}

#[test]
fn forest_depth_is_the_deepest_tree() {
    let themes = vec![
        theme(10, None),
        theme(11, Some(10)),
        theme(20, None),
        theme(21, Some(20)),
        theme(22, Some(21)),
        theme(30, None),
    ];
    assert_eq!(get_themes_tree_depth(&themes).unwrap(), 3);
}

#[test]
fn cycle_is_reported_not_looped() {
    let themes = vec![theme(1, Some(2)), theme(2, Some(1)), theme(3, None)];
    let r = get_themes_tree_depth(&themes);
    let e = r.unwrap_err();
    assert!(e.theme_id == 1 || e.theme_id == 2);
}

#[test]
fn self_cycle_is_reported() {
    let themes = vec![theme(7, Some(7))];
    let r = get_themes_tree_depth(&themes);
    assert!(r.is_err());
    assert_eq!(r.unwrap_err().theme_id, 7);
}
