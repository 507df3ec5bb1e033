use firefox_brand_generator::config::{BrandConfig, Config, FileType, Transformation, TransformationEntry};
use firefox_brand_generator::engine::{
    decimal, effective_filter, generate, missing_tool_warnings, summary_result, GeneratorPaths,
    MissingTool, Step,
};
use firefox_brand_generator::error::Error;
use firefox_brand_generator::filter::{FilterOptions, MacMode};
use firefox_brand_generator::platform::PlatformCapabilities;

fn copy(output: &str) -> Transformation {
    Transformation::Copy {
        file_type: FileType::Source,
        input_path: "in".to_string(),
        output_path: output.to_string(),
    }
}

fn icns(output: &str) -> Transformation {
    Transformation::Icns {
        file_type: FileType::Source,
        input_path: "icon.svg".to_string(),
        output_path: output.to_string(),
        sizes: vec![16],
    }
}

fn config() -> Config {
    Config {
        brand_config_path: "brand-config.json".to_string(),
        transformations: vec![
            TransformationEntry { only: None, transformation: copy("a") },
            TransformationEntry { only: None, transformation: icns("b") },
            TransformationEntry { only: Some(vec!["official".to_string()]), transformation: copy("c") },
            TransformationEntry { only: Some(vec!["nightly".to_string()]), transformation: copy("d") },
        ],
    }
}

fn nightly() -> BrandConfig {
    let mut b = BrandConfig::default();
    b.env.insert("name".to_string(), "nightly".to_string());
    b
}

fn paths() -> GeneratorPaths {
    GeneratorPaths {
        source_dir: "brands/nightly".to_string(),
        static_dir: "static".to_string(),
        output_dir: "dist/nightly".to_string(),
    }
}

fn no_tools() -> PlatformCapabilities {
    PlatformCapabilities { has_iconutil: false, has_actool: false, has_sips: false, has_hdiutil: false }
}

#[test]
fn decimal_text() {
    assert_eq!(decimal(0), "0");
    assert_eq!(decimal(7), "7");
    assert_eq!(decimal(10), "10");
    assert_eq!(decimal(105), "105");
    assert_eq!(decimal(usize::MAX), usize::MAX.to_string());
}

#[test]
fn summary_messages() {
    assert_eq!(summary_result(0, false), Ok(()));
    assert_eq!(
        summary_result(2, false),
        Err(Error::Transformation("2 transformation(s) failed".to_string()))
    );
    assert_eq!(
        summary_result(1, true),
        Err(Error::Transformation("1 transformation(s) failed validation".to_string()))
    );
}

#[test]
fn warnings_for_missing_tools() {
    assert_eq!(missing_tool_warnings(&no_tools(), false), vec![MissingTool::Iconutil, MissingTool::Actool]);
    assert_eq!(missing_tool_warnings(&no_tools(), true), vec![]);
    let mut p = no_tools();
    p.has_iconutil = true;
    assert_eq!(missing_tool_warnings(&p, false), vec![MissingTool::Actool]);
}

#[test]
fn effective_filter_takes_brand_name_and_validation_mode() {
    let options = FilterOptions::new().with_types(vec!["copy".to_string()]).with_mac_mode(MacMode::Off);
    let f = effective_filter(&options, &nightly(), false);
    assert_eq!(f.only_types, Some(vec!["copy".to_string()]));
    assert_eq!(f.mac_mode, MacMode::Off);
    assert_eq!(f.brand_name, Some("nightly".to_string()));
    let f = effective_filter(&options, &BrandConfig::default(), true);
    assert_eq!(f.mac_mode, MacMode::All);
    assert_eq!(f.brand_name, None);
}

fn describe(step: &Step) -> String {
    match step {
        Step::SkipMissingTool(t) => format!("tool:{}", t.output_path()),
        Step::SkipUnselected(t) => format!("type:{}", t.output_path()),
        Step::Validate(t) => format!("check:{}", t.output_path()),
        Step::Execute(t) => format!("run:{}", t.output_path()),
        Step::Finished(r) => format!("done:{:?}", r),
    }
}

#[test]
fn run_skips_and_counts() {
    let c = config();
    let b = nightly();
    let p = paths();
    let tools = no_tools();
    let options = FilterOptions::new();
    let mut g = generate(&c, &b, &p, &options, &tools, false);
    let mut log = Vec::new();
    loop {
        let step = g.next_step();
        log.push(describe(&step));
        match step {
            Step::Execute(t) => {
                let outcome = if t.output_path() == "a" { Ok(()) } else { Err(Error::Io("disk full".to_string())) };
                g.record(outcome);
            }
            Step::Finished(_) => break,
            _ => {}
        }
    }
    assert_eq!(
        log,
        vec![
            "run:a".to_string(),
            "tool:b".to_string(),
            "run:d".to_string(),
            "done:Err(Transformation(\"1 transformation(s) failed\"))".to_string()
        ]
    );
    assert_eq!((g.success_count(), g.skip_count(), g.error_count()), (1, 1, 1));
    assert!(!g.is_awaiting());
}

#[test]
fn run_skips_unselected_types() {
    let c = config();
    let b = nightly();
    let p = paths();
    let tools = no_tools();
    let options = FilterOptions::new().with_types(vec!["icns".to_string()]);
    let mut g = generate(&c, &b, &p, &options, &tools, true);
    let mut log = Vec::new();
    loop {
        let step = g.next_step();
        log.push(describe(&step));
        match step {
            Step::Validate(_) => {
                let outcome = g.validate_current();
                assert_eq!(outcome, Err(Error::FileNotFound("brands/nightly/icon.svg".to_string())));
            }
            Step::Finished(_) => break,
            _ => {}
        }
    }
    assert_eq!(
        log,
        vec![
            "type:a".to_string(),
            "check:b".to_string(),
            "type:d".to_string(),
            "done:Err(Transformation(\"1 transformation(s) failed validation\"))".to_string()
        ]
    );
    assert_eq!((g.success_count(), g.skip_count(), g.error_count()), (0, 2, 1));
    assert!(!g.is_awaiting());
}

/// Validates a whole run, returning its log and counts.
fn validate_all(tools: &PlatformCapabilities) -> (Vec<String>, (usize, usize, usize)) {
    let c = config();
    let b = nightly();
    let p = paths();
    let mut g = generate(&c, &b, &p, &FilterOptions::new(), tools, true);
    let mut log = Vec::new();
    loop {
        let step = g.next_step();
        log.push(describe(&step));
        match step {
            Step::Validate(_) => {
                let outcome = g.validate_current();
                log.push(format!("{:?}", outcome));
            }
            Step::Finished(_) => break,
            _ => {}
        }
    }
    (log, (g.success_count(), g.skip_count(), g.error_count()))
}

#[test]
fn validating_runs_end_alike_whatever_the_tools() {
    let all_tools =
        PlatformCapabilities { has_iconutil: true, has_actool: true, has_sips: true, has_hdiutil: true };
    let without = validate_all(&no_tools());
    let with = validate_all(&all_tools);
    assert_eq!(without, with);
    assert_eq!(
        without.0,
        vec![
            "check:a".to_string(),
            "Err(FileNotFound(\"brands/nightly/in\"))".to_string(),
            "check:b".to_string(),
            "Err(FileNotFound(\"brands/nightly/icon.svg\"))".to_string(),
            "check:d".to_string(),
            "Err(FileNotFound(\"brands/nightly/in\"))".to_string(),
            "done:Err(Transformation(\"3 transformation(s) failed validation\"))".to_string()
        ]
    );
    assert_eq!(without.1, (0, 0, 3));
}

#[test]
fn context_carries_the_folders() {
    let c = config();
    let b = nightly();
    let p = paths();
    let tools = no_tools();
    let g = generate(&c, &b, &p, &FilterOptions::new(), &tools, false);
    let ctx = g.context();
    assert_eq!(ctx.source_dir, "brands/nightly");
    assert_eq!(ctx.static_dir, "static");
    assert_eq!(ctx.output_dir, "dist/nightly");
    assert_eq!(ctx.brand_config.env.get("name"), Some(&"nightly".to_string()));
}
