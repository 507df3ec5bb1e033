use firefox_brand_generator::paths::join_path;

#[test]
fn join_adds_one_separator() {
    assert_eq!(join_path("brands/official", "brand-config.json"), "brands/official/brand-config.json");
}

#[test]
fn join_keeps_existing_separator() {
    assert_eq!(join_path("static/", "icon.svg"), "static/icon.svg");
}

#[test]
fn join_onto_empty_base() {
    assert_eq!(join_path("", "icon.svg"), "icon.svg");
}

#[test]
fn join_absolute_replaces_base() {
    assert_eq!(join_path("static", "/opt/icon.svg"), "/opt/icon.svg");
}

#[test]
fn join_empty_relative_ends_with_separator() {
    assert_eq!(join_path("dist", ""), "dist/");
}

#[test]
fn join_non_ascii() {
    assert_eq!(join_path("marques/été", "logo.svg"), "marques/été/logo.svg");
}

#[test]
fn parent_folders() {
    assert_eq!(firefox_brand_generator::paths::parent_dir("/repo/brands/official"), Some("/repo/brands".to_string()));
    assert_eq!(firefox_brand_generator::paths::parent_dir("/repo"), Some("/".to_string()));
    assert_eq!(firefox_brand_generator::paths::parent_dir("/"), None);
    assert_eq!(firefox_brand_generator::paths::parent_dir("repo/dist"), Some("repo".to_string()));
    assert_eq!(firefox_brand_generator::paths::parent_dir("repo"), None);
}

#[test]
fn no_repository_above_a_missing_folder() {
    assert_eq!(
        firefox_brand_generator::paths::find_repo_root_from("/no-such-folder-for-brand-assets/a/b"),
        None
    );
}

#[test]
fn ancestors_of_a_folder() {
    assert_eq!(
        firefox_brand_generator::paths::ancestor_paths("/r/a/b"),
        vec!["/r/a/b".to_string(), "/r/a".to_string(), "/r".to_string(), "/".to_string()]
    );
    assert_eq!(firefox_brand_generator::paths::ancestor_paths("r"), vec!["r".to_string()]);
}

#[test]
fn root_is_the_nearest_folder_with_both() {
    let has_config = vec![false, true, true, false];
    let has_brands = vec![false, false, true, false];
    assert_eq!(firefox_brand_generator::paths::root_among(&has_config, &has_brands), Some(2));
    let has_brands = vec![true, false, false, true];
    assert_eq!(firefox_brand_generator::paths::root_among(&has_config, &has_brands), None);
}
