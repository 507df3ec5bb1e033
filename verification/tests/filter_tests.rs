use firefox_brand_generator::config::{FileType, Transformation, TransformationEntry};
use firefox_brand_generator::filter::{filter_transformations, FilterOptions, MacMode};
use firefox_brand_generator::platform::PlatformCapabilities;

fn copy(output: &str) -> Transformation {
    Transformation::Copy {
        file_type: FileType::Source,
        input_path: "in".to_string(),
        output_path: output.to_string(),
    }
}

fn icns(output: &str) -> Transformation {
    Transformation::Icns {
        file_type: FileType::Source,
        input_path: "icon.svg".to_string(),
        output_path: output.to_string(),
        sizes: vec![16],
    }
}

fn ds_store() -> Transformation {
    Transformation::DsStore {
        output_path: "dsstore".to_string(),
        app_name: "a".to_string(),
        volume_name: "v".to_string(),
        background_image: "bg.png".to_string(),
        background_image_file_type: FileType::Source,
        volume_icon: "disk.icns".to_string(),
        volume_icon_file_type: FileType::Source,
        window_position: "1 2".to_string(),
        window_size: "3 4".to_string(),
        app_icon_position: "5 6".to_string(),
        app_drop_link_position: "7 8".to_string(),
    }
}

fn entry(t: Transformation, only: Option<Vec<&str>>) -> TransformationEntry {
    TransformationEntry {
        only: only.map(|v| v.into_iter().map(|s| s.to_string()).collect()),
        transformation: t,
    }
}

fn caps(all: bool) -> PlatformCapabilities {
    PlatformCapabilities { has_iconutil: all, has_actool: all, has_sips: all, has_hdiutil: all }
}

fn outputs(kept: &[(&Transformation, bool)]) -> Vec<(String, bool)> {
    kept.iter().map(|(t, w)| (t.output_path().to_string(), *w)).collect()
}

fn entries() -> Vec<TransformationEntry> {
    vec![
        entry(copy("a"), None),
        entry(icns("b"), None),
        entry(copy("c"), Some(vec!["nightly"])),
        entry(ds_store(), None),
        entry(copy("e"), Some(vec!["official", "aurora"])),
    ]
}

#[test]
fn new_options_select_everything() {
    let options = FilterOptions::new();
    assert!(options.only_types.is_none());
    assert_eq!(options.mac_mode, MacMode::All);
    assert!(options.brand_name.is_none());
}

#[test]
fn builders_set_their_field() {
    let options = FilterOptions::new()
        .with_types(vec!["raster".to_string()])
        .with_mac_mode(MacMode::Simple);
    assert_eq!(options.only_types, Some(vec!["raster".to_string()]));
    assert_eq!(options.mac_mode, MacMode::Simple);
}

#[test]
fn mac_mode_all_keeps_mac_transformations() {
    let list = entries();
    let mut options = FilterOptions::new();
    options.brand_name = Some("official".to_string());
    let kept = filter_transformations(&list, &options, &caps(true));
    assert_eq!(
        outputs(&kept),
        vec![
            ("a".to_string(), false),
            ("b".to_string(), false),
            ("dsstore".to_string(), false),
            ("e".to_string(), false)
        ]
    );
}

#[test]
fn mac_mode_simple_drops_ds_store() {
    let list = entries();
    let mut options = FilterOptions::new().with_mac_mode(MacMode::Simple);
    options.brand_name = Some("nightly".to_string());
    let kept = filter_transformations(&list, &options, &caps(true));
    assert_eq!(
        outputs(&kept),
        vec![("a".to_string(), false), ("b".to_string(), false), ("c".to_string(), false)]
    );
}

#[test]
fn mac_mode_off_drops_every_mac_transformation() {
    let list = entries();
    let options = FilterOptions::new().with_mac_mode(MacMode::Off);
    let kept = filter_transformations(&list, &options, &caps(true));
    assert_eq!(outputs(&kept), vec![("a".to_string(), false)]);
}

#[test]
fn missing_tools_are_marked() {
    let list = entries();
    let options = FilterOptions::new();
    let kept = filter_transformations(&list, &options, &caps(false));
    assert_eq!(
        outputs(&kept),
        vec![("a".to_string(), false), ("b".to_string(), true), ("dsstore".to_string(), true)]
    );
}

#[test]
fn ds_store_needs_all_three_tools() {
    let list = vec![entry(ds_store(), None)];
    let mut platform = caps(true);
    platform.has_hdiutil = false;
    let kept = filter_transformations(&list, &FilterOptions::new(), &platform);
    assert_eq!(outputs(&kept), vec![("dsstore".to_string(), true)]);
    let mut platform = caps(true);
    platform.has_actool = false;
    let kept = filter_transformations(&list, &FilterOptions::new(), &platform);
    assert_eq!(outputs(&kept), vec![("dsstore".to_string(), false)]);
}

#[test]
fn requested_mac_mode_wins() {
    let options = firefox_brand_generator::filter::make_filter_options(None, Some(MacMode::All), false);
    assert_eq!(options.mac_mode, MacMode::All);
    assert!(options.only_types.is_none());
}

#[test]
fn selected_types_run_every_mac_transformation() {
    let options = firefox_brand_generator::filter::make_filter_options(
        Some(vec!["icns".to_string()]),
        None,
        false,
    );
    assert_eq!(options.mac_mode, MacMode::All);
    assert_eq!(options.only_types, Some(vec!["icns".to_string()]));
}

#[test]
fn platform_decides_default_mac_mode() {
    assert_eq!(firefox_brand_generator::filter::make_filter_options(None, None, true).mac_mode, MacMode::Simple);
    assert_eq!(firefox_brand_generator::filter::make_filter_options(None, None, false).mac_mode, MacMode::Off);
}

#[test]
fn selected_types_ignore_requested_mac_mode() {
    let options = firefox_brand_generator::filter::make_filter_options(
        Some(vec!["copy".to_string()]),
        Some(MacMode::Off),
        true,
    );
    assert_eq!(options.mac_mode, MacMode::All);
}

#[test]
fn everything_kept_without_brand_lists() {
    let list = vec![entry(copy("a"), None), entry(icns("b"), None), entry(ds_store(), None)];
    let kept = filter_transformations(&list, &FilterOptions::new(), &caps(true));
    assert_eq!(
        outputs(&kept),
        vec![("a".to_string(), false), ("b".to_string(), false), ("dsstore".to_string(), false)]
    );
}
