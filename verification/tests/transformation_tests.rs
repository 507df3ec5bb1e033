use firefox_brand_generator::config::{BrandConfig, FileType, FitStrategy, OutputFileType, Transformation};
use firefox_brand_generator::error::Error;
use firefox_brand_generator::platform::PlatformCapabilities;
use firefox_brand_generator::transformations::{
    check, execute, input_path_outcome, input_presence, inputs_outcome, plan,
    required_input_paths, resolve_input_path, validate, Job, TransformationContext,
};

const MISSING: &str = "/no-such-folder-for-brand-assets";

fn caps(all: bool) -> PlatformCapabilities {
    PlatformCapabilities { has_iconutil: all, has_actool: all, has_sips: all, has_hdiutil: all }
}

fn brand() -> BrandConfig {
    let mut config = BrandConfig::default();
    config.strings.insert("brandShortName".to_string(), "Nightly".to_string());
    config
}

fn context<'a>(brand: &'a BrandConfig, platform: &'a PlatformCapabilities) -> TransformationContext<'a> {
    TransformationContext {
        source_dir: "/",
        static_dir: MISSING,
        output_dir: "dist/nightly",
        brand_config: brand,
        capabilities: platform,
    }
}

fn ds_store(app_name: &str, background: &str) -> Transformation {
    Transformation::DsStore {
        output_path: "dsstore".to_string(),
        app_name: app_name.to_string(),
        volume_name: "{{#str brandShortName}} Installer".to_string(),
        background_image: background.to_string(),
        background_image_file_type: FileType::Source,
        volume_icon: ".".to_string(),
        volume_icon_file_type: FileType::Source,
        window_position: "200 120".to_string(),
        window_size: "680 400".to_string(),
        app_icon_position: "209 220".to_string(),
        app_drop_link_position: "472 220".to_string(),
    }
}

#[test]
fn outcome_of_input_check() {
    assert_eq!(input_path_outcome("a/b".to_string(), true), Ok("a/b".to_string()));
    assert_eq!(
        input_path_outcome("a/b".to_string(), false),
        Err(Error::FileNotFound("a/b".to_string()))
    );
}

#[test]
fn resolves_existing_source_file() {
    assert_eq!(resolve_input_path(&FileType::Source, ".", "/", MISSING), Ok("/.".to_string()));
}

#[test]
fn missing_static_file_is_reported_with_its_path() {
    assert_eq!(
        resolve_input_path(&FileType::Static, "logo.svg", "/", MISSING),
        Err(Error::FileNotFound(format!("{}/logo.svg", MISSING)))
    );
}

#[test]
fn raster_plan_resolves_paths_and_keeps_settings() {
    let b = brand();
    let p = caps(false);
    let t = Transformation::Raster {
        file_type: FileType::Source,
        input_path: ".".to_string(),
        output_path: "content/about-logo.png".to_string(),
        output_file_type: OutputFileType::Png,
        width: 192,
        height: 96,
        padding_pixels_width: Some(4),
        padding_pixels_height: None,
        offset_x: None,
        offset_y: Some(-3),
        fit: FitStrategy::Cover,
    };
    match execute(&t, &context(&b, &p)) {
        Ok(Job::Raster { input, output, output_file_type, width, height, padding_pixels_width, padding_pixels_height, offset_x, offset_y, fit }) => {
            assert_eq!(input, "/.");
            assert_eq!(output, "dist/nightly/content/about-logo.png");
            assert_eq!(output_file_type, OutputFileType::Png);
            assert_eq!((width, height), (192, 96));
            assert_eq!((padding_pixels_width, padding_pixels_height), (Some(4), None));
            assert_eq!((offset_x, offset_y), (None, Some(-3)));
            assert_eq!(fit, FitStrategy::Cover);
        }
        other => panic!("unexpected plan {:?}", other),
    }
}

#[test]
fn icns_needs_iconutil_before_its_input() {
    let b = brand();
    let p = caps(false);
    let t = Transformation::Icns {
        file_type: FileType::Static,
        input_path: "icon.svg".to_string(),
        output_path: "firefox.icns".to_string(),
        sizes: vec![512, 16],
    };
    assert_eq!(
        execute(&t, &context(&b, &p)).unwrap_err(),
        Error::PlatformToolUnavailable("iconutil (required for icns generation)".to_string())
    );
    let p = caps(true);
    assert_eq!(
        execute(&t, &context(&b, &p)).unwrap_err(),
        Error::FileNotFound(format!("{}/icon.svg", MISSING))
    );
}

#[test]
fn ico_plan_copies_sizes() {
    let b = brand();
    let p = caps(false);
    let t = Transformation::Ico {
        file_type: FileType::Source,
        input_path: ".".to_string(),
        output_path: "firefox.ico".to_string(),
        sizes: vec![256, 48, 32, 16],
    };
    match execute(&t, &context(&b, &p)) {
        Ok(Job::Ico { input, output, sizes }) => {
            assert_eq!(input, "/.");
            assert_eq!(output, "dist/nightly/firefox.ico");
            assert_eq!(sizes, vec![256, 48, 32, 16]);
        }
        other => panic!("unexpected plan {:?}", other),
    }
}

#[test]
fn assets_car_reports_the_first_missing_input() {
    let b = brand();
    let p = caps(true);
    let t = Transformation::AssetsCar {
        liquid_glass_icon_file_type: FileType::Source,
        liquid_glass_icon_path: ".".to_string(),
        output_path: "Assets.car".to_string(),
        app_icon_input: "app.svg".to_string(),
        app_icon_file_type: FileType::Static,
        icon_input: "icon.svg".to_string(),
        icon_file_type: FileType::Static,
    };
    assert_eq!(
        execute(&t, &context(&b, &p)).unwrap_err(),
        Error::FileNotFound(format!("{}/app.svg", MISSING))
    );
    let p = caps(false);
    assert_eq!(
        execute(&t, &context(&b, &p)).unwrap_err(),
        Error::PlatformToolUnavailable("actool (required for Assets.car generation)".to_string())
    );
}

#[test]
fn copy_image_mac_keeps_dpi() {
    let b = brand();
    let p = caps(true);
    let t = Transformation::CopyImageMac {
        file_type: FileType::Source,
        input_path: ".".to_string(),
        output_path: "background.png".to_string(),
        dpi_bits: Some(144.0f64.to_bits()),
    };
    match execute(&t, &context(&b, &p)) {
        Ok(Job::CopyImageMac { input, output, dpi_bits }) => {
            assert_eq!(input, "/.");
            assert_eq!(output, "dist/nightly/background.png");
            assert_eq!(dpi_bits.map(f64::from_bits), Some(144.0));
        }
        other => panic!("unexpected plan {:?}", other),
    }
    let p = caps(false);
    assert_eq!(
        execute(&t, &context(&b, &p)).unwrap_err(),
        Error::PlatformToolUnavailable("sips (required for CopyImageMac transformation)".to_string())
    );
}

#[test]
fn ds_store_plan_expands_templates() {
    let b = brand();
    let p = caps(true);
    let t = ds_store("{{#str brandShortName}}.app", ".");
    match execute(&t, &context(&b, &p)) {
        Ok(Job::DsStore { output, app_name, volume_name, background_image, volume_icon, window_position, window_size, app_icon_position, app_drop_link_position }) => {
            assert_eq!(output, "dist/nightly/dsstore");
            assert_eq!(app_name, "Nightly.app");
            assert_eq!(volume_name, "Nightly Installer");
            assert_eq!(background_image, "/.");
            assert_eq!(volume_icon, "/.");
            assert_eq!(window_position, "200 120");
            assert_eq!(window_size, "680 400");
            assert_eq!(app_icon_position, "209 220");
            assert_eq!(app_drop_link_position, "472 220");
        }
        other => panic!("unexpected plan {:?}", other),
    }
}

#[test]
fn ds_store_checks_tools_in_order() {
    let b = brand();
    let t = ds_store("x", ".");
    let mut p = caps(true);
    p.has_hdiutil = false;
    p.has_iconutil = false;
    assert_eq!(
        execute(&t, &context(&b, &p)).unwrap_err(),
        Error::PlatformToolUnavailable("hdiutil (required for .DS_Store generation)".to_string())
    );
    let mut p = caps(true);
    p.has_iconutil = false;
    assert_eq!(
        execute(&t, &context(&b, &p)).unwrap_err(),
        Error::PlatformToolUnavailable("iconutil (required for .DS_Store generation)".to_string())
    );
    let p = caps(false);
    assert_eq!(
        execute(&t, &context(&b, &p)).unwrap_err(),
        Error::PlatformToolUnavailable("sips (required for .DS_Store generation)".to_string())
    );
}

#[test]
fn ds_store_template_error_comes_before_missing_files() {
    let b = brand();
    let p = caps(true);
    let t = ds_store("{{#str vendor}}", "missing-background.png");
    assert_eq!(
        execute(&t, &context(&b, &p)).unwrap_err(),
        Error::UnknownStringKey("vendor".to_string())
    );
    assert_eq!(
        validate(&t, &context(&b, &p)).unwrap_err(),
        Error::UnknownStringKey("vendor".to_string())
    );
}

#[test]
fn validate_ignores_missing_tools() {
    let b = brand();
    let p = caps(false);
    assert_eq!(validate(&ds_store("{{#str brandShortName}}", "."), &context(&b, &p)), Ok(()));
    assert_eq!(
        validate(&ds_store("x", "nope.png"), &context(&b, &p)),
        Err(Error::FileNotFound("/nope.png".to_string()))
    );
}

#[test]
fn validate_checks_inputs_of_copies() {
    let b = brand();
    let p = caps(false);
    let ok = Transformation::CopyPreprocess {
        file_type: FileType::Source,
        input_path: ".".to_string(),
        output_path: "moz.build".to_string(),
    };
    assert_eq!(validate(&ok, &context(&b, &p)), Ok(()));
    let missing = Transformation::Copy {
        file_type: FileType::Static,
        input_path: "x.txt".to_string(),
        output_path: "x.txt".to_string(),
    };
    assert_eq!(
        validate(&missing, &context(&b, &p)),
        Err(Error::FileNotFound(format!("{}/x.txt", MISSING)))
    );
    match execute(&ok, &context(&b, &p)) {
        Ok(Job::CopyPreprocess { input, output }) => {
            assert_eq!(input, "/.");
            assert_eq!(output, "dist/nightly/moz.build");
        }
        other => panic!("unexpected plan {:?}", other),
    }
}

#[test]
fn required_paths_in_check_order() {
    let b = brand();
    let p = caps(true);
    let t = Transformation::AssetsCar {
        liquid_glass_icon_file_type: FileType::Source,
        liquid_glass_icon_path: "glass".to_string(),
        output_path: "Assets.car".to_string(),
        app_icon_input: "app.svg".to_string(),
        app_icon_file_type: FileType::Static,
        icon_input: "icon.svg".to_string(),
        icon_file_type: FileType::Source,
    };
    assert_eq!(
        required_input_paths(&t, &context(&b, &p)),
        vec!["/glass".to_string(), format!("{}/app.svg", MISSING), "/icon.svg".to_string()]
    );
}

#[test]
fn first_missing_input_is_reported() {
    let paths = vec!["a".to_string(), "b".to_string(), "c".to_string()];
    assert_eq!(inputs_outcome(&paths, &vec![true, true, true]), Ok(()));
    assert_eq!(
        inputs_outcome(&paths, &vec![true, false, false]),
        Err(Error::FileNotFound("b".to_string()))
    );
    assert_eq!(inputs_outcome(&paths, &vec![false, true, false]), Err(Error::FileNotFound("a".to_string())));
}

#[test]
fn presence_follows_the_file_system() {
    let paths = vec!["/".to_string(), format!("{}/x", MISSING)];
    assert_eq!(input_presence(&paths), vec![true, false]);
}

#[test]
fn plan_and_check_with_given_presence() {
    let b = brand();
    let t = ds_store("{{#str brandShortName}}", "bg.png");
    let none = caps(false);
    let all = caps(true);
    assert_eq!(
        plan(&t, &context(&b, &none), &vec![true, true]).unwrap_err(),
        Error::PlatformToolUnavailable("sips (required for .DS_Store generation)".to_string())
    );
    assert_eq!(check(&t, &context(&b, &none), &vec![true, true]), Ok(()));
    assert_eq!(
        check(&t, &context(&b, &none), &vec![true, false]),
        Err(Error::FileNotFound("/.".to_string()))
    );
    assert_eq!(
        plan(&t, &context(&b, &all), &vec![false, false]).unwrap_err(),
        Error::FileNotFound("/bg.png".to_string())
    );
    match plan(&t, &context(&b, &all), &vec![true, true]) {
        Ok(Job::DsStore { app_name, background_image, .. }) => {
            assert_eq!(app_name, "Nightly");
            assert_eq!(background_image, "/bg.png");
        }
        other => panic!("unexpected plan {:?}", other),
    }
}
