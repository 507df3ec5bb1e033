//! Generation of brand asset folders from a configuration of transformations.
//!
//! The verified library holds the configuration model, the planning of each
//! transformation (input resolution, tool checks, template expansion), the
//! selection of transformations for a brand and platform, and the bookkeeping
//! of a generation run. Reading configuration files, detecting platform tools
//! and carrying out the file work are left to the caller, which drives a run
//! through the actions that the library asks for.
use vstd::prelude::*;

pub mod brands;
pub mod condition;
pub mod config;
pub mod engine;
pub mod error;
pub mod filter;
pub mod paths;
pub mod platform;
pub mod preprocess;
pub mod template;
pub mod transformations;

use crate::config::{BrandConfig, Config};
use crate::engine::GeneratorPaths;
use crate::error::Error;
use crate::filter::FilterOptions;
use crate::paths::{join_path, joined};

verus! {

/// The folders and options of a brand's run.
pub struct RunSettings {
    /// The brand's source folder; the brand configuration path is relative to it.
    pub source_dir: String,
    /// The folder of assets shared by every brand.
    pub static_dir: String,
    /// The folder that outputs are written under.
    pub output_dir: String,
    pub filter_options: FilterOptions,
    /// Whether to validate instead of carrying out the transformations.
    pub validate_only: bool,
}

/// Where a brand's run stands.
pub enum Run {
    /// Waiting for the configuration to be loaded.
    AwaitingConfig { settings: RunSettings },
    /// Waiting for the brand configuration to be loaded.
    AwaitingBrandConfig { settings: RunSettings, config: Config },
    /// Waiting for the generation to finish.
    Generating,
    /// Finished.
    Done,
}

/// What the caller reports back to a run.
pub enum RunEvent {
    /// The configuration was loaded, or could not be.
    ConfigLoaded(Result<Config, Error>),
    /// The brand configuration was loaded, or could not be.
    BrandConfigLoaded(Result<BrandConfig, Error>),
    /// The generation finished with this result.
    Generated(Result<(), Error>),
}

/// What a run asks the caller to do next.
pub enum RunAction {
    /// Load the configuration at this path.
    LoadConfig(String),
    /// Load the brand configuration at this path.
    LoadBrandConfig(String),
    /// Generate the brand with these configurations, folders and options
    /// (see `engine::generate`).
    Generate {
        config: Config,
        brand_config: BrandConfig,
        paths: GeneratorPaths,
        filter_options: FilterOptions,
        validate_only: bool,
    },
    /// The run is over, with this result.
    Finish(Result<(), Error>),
}

impl Run {
    /// Whether the run waits for this kind of event.
    pub open spec fn expects(&self, event: RunEvent) -> bool {
        match (*self, event) {
            (Run::AwaitingConfig { .. }, RunEvent::ConfigLoaded(_)) => true,
            (Run::AwaitingBrandConfig { .. }, RunEvent::BrandConfigLoaded(_)) => true,
            (Run::Generating, RunEvent::Generated(_)) => true,
            _ => false,
        }
    }

    /// Whether the run waits for this kind of event.
    pub fn awaits(&self, event: &RunEvent) -> (r: bool)
        ensures
            r == self.expects(*event),
    {
        match (self, event) {
            (Run::AwaitingConfig { .. }, RunEvent::ConfigLoaded(_)) => true,
            (Run::AwaitingBrandConfig { .. }, RunEvent::BrandConfigLoaded(_)) => true,
            (Run::Generating, RunEvent::Generated(_)) => true,
            _ => false,
        }
    }

    /// Moves the run on with an event: a loaded configuration leads to the
    /// loading of the brand configuration at its `brand_config_path` under
    /// the source folder; a loaded brand configuration leads to the
    /// generation; a loading failure or the generation's result ends the run
    /// with that result.
    pub fn step(self, event: RunEvent) -> (r: (Run, RunAction))
        requires
            self.expects(event),
        ensures
            match (self, event) {
                (Run::AwaitingConfig { settings }, RunEvent::ConfigLoaded(Ok(config))) => {
                    &&& r.0 matches Run::AwaitingBrandConfig { settings: s, config: c }
                    &&& s == settings
                    &&& c == config
                    &&& r.1 matches RunAction::LoadBrandConfig(p)
                    &&& p@ == joined(settings.source_dir@, config.brand_config_path@)
                },
                (Run::AwaitingConfig { .. }, RunEvent::ConfigLoaded(Err(e))) => {
                    &&& r.0 is Done
                    &&& r.1 == RunAction::Finish(Err(e))
                },
                (
                    Run::AwaitingBrandConfig { settings, config },
                    RunEvent::BrandConfigLoaded(Ok(brand_config)),
                ) => {
                    &&& r.0 is Generating
                    &&& r.1 matches RunAction::Generate {
                        config: c,
                        brand_config: b,
                        paths,
                        filter_options,
                        validate_only,
                    }
                    &&& c == config
                    &&& b == brand_config
                    &&& paths.source_dir == settings.source_dir
                    &&& paths.static_dir == settings.static_dir
                    &&& paths.output_dir == settings.output_dir
                    &&& filter_options == settings.filter_options
                    &&& validate_only == settings.validate_only
                },
                (Run::AwaitingBrandConfig { .. }, RunEvent::BrandConfigLoaded(Err(e))) => {
                    &&& r.0 is Done
                    &&& r.1 == RunAction::Finish(Err(e))
                },
                (Run::Generating, RunEvent::Generated(result)) => {
                    &&& r.0 is Done
                    &&& r.1 == RunAction::Finish(result)
                },
                _ => false,
            },
    {
        match (self, event) {
            (Run::AwaitingConfig { settings }, RunEvent::ConfigLoaded(Ok(config))) => {
                let path = join_path(
                    settings.source_dir.as_str(),
                    config.brand_config_path.as_str(),
                );
                (Run::AwaitingBrandConfig { settings, config }, RunAction::LoadBrandConfig(path))
            },
            (Run::AwaitingConfig { .. }, RunEvent::ConfigLoaded(Err(e))) => {
                (Run::Done, RunAction::Finish(Err(e)))
            },
            (
                Run::AwaitingBrandConfig { settings, config },
                RunEvent::BrandConfigLoaded(Ok(brand_config)),
            ) => {
                let paths = GeneratorPaths {
                    source_dir: settings.source_dir,
                    static_dir: settings.static_dir,
                    output_dir: settings.output_dir,
                };
                (
                    Run::Generating,
                    RunAction::Generate {
                        config,
                        brand_config,
                        paths,
                        filter_options: settings.filter_options,
                        validate_only: settings.validate_only,
                    },
                )
            },
            (Run::AwaitingBrandConfig { .. }, RunEvent::BrandConfigLoaded(Err(e))) => {
                (Run::Done, RunAction::Finish(Err(e)))
            },
            (Run::Generating, RunEvent::Generated(result)) => (Run::Done, RunAction::Finish(result)),
            _ => (Run::Done, RunAction::Finish(Ok(()))),
        }
    }
}

/// Starts a brand's run: its first action is to load the configuration at
/// `config_path`.
pub fn run(
    config_path: &str,
    source_dir: &str,
    static_dir: &str,
    output_dir: &str,
    filter_options: FilterOptions,
    validate_only: bool,
) -> (r: (Run, RunAction))
    ensures
        r.0 matches Run::AwaitingConfig { settings } && settings.source_dir@ == source_dir@
            && settings.static_dir@ == static_dir@ && settings.output_dir@ == output_dir@
            && settings.filter_options == filter_options && settings.validate_only == validate_only,
        r.1 matches RunAction::LoadConfig(p) && p@ == config_path@,
{
    let settings = RunSettings {
        source_dir: source_dir.to_owned(),
        static_dir: static_dir.to_owned(),
        output_dir: output_dir.to_owned(),
        filter_options,
        validate_only,
    };
    (Run::AwaitingConfig { settings }, RunAction::LoadConfig(config_path.to_owned()))
}

} // verus!
