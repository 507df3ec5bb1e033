use firefox_brand_generator::config::{
    BrandConfig, FileType, FitStrategy, OutputFileType, StringTable, Transformation,
};

fn copy(output: &str) -> Transformation {
    Transformation::Copy {
        file_type: FileType::Source,
        input_path: "in.txt".to_string(),
        output_path: output.to_string(),
    }
}

fn all_kinds() -> Vec<Transformation> {
    vec![
        Transformation::Raster {
            file_type: FileType::Static,
            input_path: "logo.svg".to_string(),
            output_path: "content/logo.png".to_string(),
            output_file_type: OutputFileType::Png,
            width: 64,
            height: 64,
            padding_pixels_width: None,
            padding_pixels_height: Some(2),
            offset_x: Some(-1),
            offset_y: None,
            fit: FitStrategy::default(),
        },
        Transformation::Ico {
            file_type: FileType::Source,
            input_path: "icon.svg".to_string(),
            output_path: "firefox.ico".to_string(),
            sizes: vec![256, 48, 32, 16],
        },
        Transformation::Icns {
            file_type: FileType::Source,
            input_path: "icon.svg".to_string(),
            output_path: "firefox.icns".to_string(),
            sizes: vec![1024, 16],
        },
        Transformation::AssetsCar {
            liquid_glass_icon_file_type: FileType::Source,
            liquid_glass_icon_path: "glass".to_string(),
            output_path: "Assets.car".to_string(),
            app_icon_input: "app.svg".to_string(),
            app_icon_file_type: FileType::Source,
            icon_input: "icon.svg".to_string(),
            icon_file_type: FileType::Static,
        },
        copy("copied.txt"),
        Transformation::CopyPreprocess {
            file_type: FileType::Static,
            input_path: "moz.build.in".to_string(),
            output_path: "moz.build".to_string(),
        },
        Transformation::CopyImageMac {
            file_type: FileType::Source,
            input_path: "bg.png".to_string(),
            output_path: "background.png".to_string(),
            dpi_bits: Some(72.0f64.to_bits()),
        },
        Transformation::DsStore {
            output_path: "dsstore".to_string(),
            app_name: "{{#str brandShortName}}".to_string(),
            volume_name: "{{#str brandShortName}}".to_string(),
            background_image: "bg.png".to_string(),
            background_image_file_type: FileType::Source,
            volume_icon: "disk.icns".to_string(),
            volume_icon_file_type: FileType::Source,
            window_position: "200 120".to_string(),
            window_size: "680 400".to_string(),
            app_icon_position: "209 220".to_string(),
            app_drop_link_position: "472 220".to_string(),
        },
    ]
}

#[test]
fn fit_strategy_defaults_to_contain() {
    assert_eq!(FitStrategy::default(), FitStrategy::Contain);
}

#[test]
fn transformation_type_names() {
    let kinds = all_kinds();
    let names: Vec<&str> = kinds.iter().map(|t| t.transformation_type()).collect::<Vec<_>>();
    assert_eq!(
        names,
        vec![
            "raster",
            "ico",
            "icns",
            "assets-car",
            "copy",
            "copy-preprocess",
            "copy-image-mac",
            "ds-store"
        ]
    );
}

#[test]
fn transformation_output_paths() {
    let kinds = all_kinds();
    let outputs: Vec<&str> = kinds.iter().map(|t| t.output_path()).collect::<Vec<_>>();
    assert_eq!(
        outputs,
        vec![
            "content/logo.png",
            "firefox.ico",
            "firefox.icns",
            "Assets.car",
            "copied.txt",
            "moz.build",
            "background.png",
            "dsstore"
        ]
    );
}

#[test]
fn string_table_reads_what_was_written() {
    let mut table = StringTable::new();
    assert_eq!(table.get("brandName"), None);
    table.insert("brandName".to_string(), "Firefox".to_string());
    table.insert("vendor".to_string(), "Mozilla".to_string());
    assert_eq!(table.get("brandName"), Some(&"Firefox".to_string()));
    table.insert("brandName".to_string(), "Nightly".to_string());
    assert_eq!(table.get("brandName"), Some(&"Nightly".to_string()));
    assert_eq!(table.get("vendor"), Some(&"Mozilla".to_string()));
    assert_eq!(table.get("missing"), None);
}

#[test]
fn default_brand_config_is_empty() {
    let config = BrandConfig::default();
    assert_eq!(config.strings.get("name"), None);
    assert_eq!(config.env.get("name"), None);
}
