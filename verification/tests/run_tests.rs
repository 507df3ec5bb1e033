use firefox_brand_generator::config::{BrandConfig, Config};
use firefox_brand_generator::error::Error;
use firefox_brand_generator::filter::{FilterOptions, MacMode};
use firefox_brand_generator::{run, Run, RunAction, RunEvent};

fn start() -> (Run, RunAction) {
    run(
        "repo/config.json",
        "repo/brands/official",
        "repo/static",
        "repo/dist/official",
        FilterOptions::new().with_mac_mode(MacMode::Simple),
        false,
    )
}

fn config() -> Config {
    Config { brand_config_path: "brand-config.json".to_string(), transformations: vec![] }
}

#[test]
fn run_loads_config_then_brand_config_then_generates() {
    let (machine, action) = start();
    match action {
        RunAction::LoadConfig(p) => assert_eq!(p, "repo/config.json"),
        _ => panic!("expected to load the configuration"),
    }
    let event = RunEvent::ConfigLoaded(Ok(config()));
    assert!(machine.awaits(&event));
    let (machine, action) = machine.step(event);
    match action {
        RunAction::LoadBrandConfig(p) => assert_eq!(p, "repo/brands/official/brand-config.json"),
        _ => panic!("expected to load the brand configuration"),
    }
    let (machine, action) = machine.step(RunEvent::BrandConfigLoaded(Ok(BrandConfig::default())));
    match action {
        RunAction::Generate { config, paths, filter_options, validate_only, .. } => {
            assert_eq!(config.brand_config_path, "brand-config.json");
            assert_eq!(paths.source_dir, "repo/brands/official");
            assert_eq!(paths.static_dir, "repo/static");
            assert_eq!(paths.output_dir, "repo/dist/official");
            assert_eq!(filter_options.mac_mode, MacMode::Simple);
            assert!(!validate_only);
        }
        _ => panic!("expected to generate"),
    }
    assert!(!machine.awaits(&RunEvent::ConfigLoaded(Ok(config()))));
    let failure = Err(Error::Transformation("1 transformation(s) failed".to_string()));
    let (machine, action) = machine.step(RunEvent::Generated(failure.clone()));
    assert!(matches!(machine, Run::Done));
    match action {
        RunAction::Finish(r) => assert_eq!(r, failure),
        _ => panic!("expected to finish"),
    }
}

#[test]
fn config_error_ends_the_run() {
    let (machine, _) = start();
    let (machine, action) = machine.step(RunEvent::ConfigLoaded(Err(Error::Config("bad json".to_string()))));
    assert!(matches!(machine, Run::Done));
    match action {
        RunAction::Finish(r) => assert_eq!(r, Err(Error::Config("bad json".to_string()))),
        _ => panic!("expected to finish"),
    }
}

#[test]
fn brand_config_error_ends_the_run() {
    let (machine, _) = start();
    let (machine, _) = machine.step(RunEvent::ConfigLoaded(Ok(config())));
    let (machine, action) = machine.step(RunEvent::BrandConfigLoaded(Err(Error::Io("no file".to_string()))));
    assert!(matches!(machine, Run::Done));
    match action {
        RunAction::Finish(r) => assert_eq!(r, Err(Error::Io("no file".to_string()))),
        _ => panic!("expected to finish"),
    }
}

#[test]
fn absolute_brand_config_path_stands_alone() {
    let (machine, _) = start();
    let c = Config { brand_config_path: "/etc/brand.json".to_string(), transformations: vec![] };
    match machine.step(RunEvent::ConfigLoaded(Ok(c))).1 {
        RunAction::LoadBrandConfig(p) => assert_eq!(p, "/etc/brand.json"),
        _ => panic!("expected to load the brand configuration"),
    }
}
