use briq_utils::cachepath::cache_relative_path;
use briq_utils::urls::convert_asset_url;

#[test]
fn rewrites_url_under_source_prefix() {
    let url = "https://cdn.rebrickable.com/media/parts/elements/300126.jpg";
    let out = convert_asset_url(url);
    assert_eq!(
        out,
        Some(String::from("https://briq-assets.spe.quebec/parts/elements/300126.jpg"))
    );
}

#[test]
fn rewrites_prefix_only_url_to_bare_target() {
    let url = "https://cdn.rebrickable.com/media";
    let out = convert_asset_url(url);
    assert_eq!(out, Some(String::from("https://briq-assets.spe.quebec")));
}

#[test]
fn empty_url_becomes_no_url() {
    assert_eq!(convert_asset_url(""), None);
}

#[test]
fn cache_path_is_everything_after_double_slash() {
    let p = cache_relative_path("https://cdn.rebrickable.com/media/sets/1.jpg");
    assert_eq!(
        p,
        Some(String::from("cdn.rebrickable.com/media/sets/1.jpg"))
    );
}

#[test]
fn cache_path_absent_without_double_slash() {
    assert_eq!(cache_relative_path("not-a-url"), None);
    assert_eq!(cache_relative_path(""), None);
    assert_eq!(cache_relative_path("a/b/c"), None);
}

#[test]
fn cache_path_uses_first_double_slash() {
    let p = cache_relative_path("scheme://host//x");
    assert_eq!(p, Some(String::from("host//x")));
}
