//! The process-wide configuration, threaded as an explicit value into the
//! core instead of read from ambient state. Loading and saving the document
//! is the caller's concern; the completion temperature is a transport
//! parameter and lives with the transport glue.

use vstd::prelude::*;

use crate::errors::AppError;
use crate::snapshot::join_path;

verus! {

/// What a run of the core needs to know.
#[derive(Debug, Clone, PartialEq, Eq)]
pub struct Config {
    /// Lines per part when chunking; never zero in a validated configuration.
    pub chunk_size: usize,
    /// The completion service's credential, if one is configured.
    pub api_key: Option<String>,
    /// Which log messages the run keeps.
    pub log_level: String,
    /// Where the run's outputs, staging subtree and backups live.
    pub output_directory: String,
    /// The instruction text sent with every request.
    pub system_prompt: String,
    /// How many times a failed service call is retried.
    pub retries: u32,
}

/// The configuration a first run starts from.
pub fn default_config() -> (r: Config)
    ensures
        r.chunk_size == 50,
        r.api_key is None,
        r.log_level@ == "off"@,
        r.output_directory@ == "./"@,
        r.system_prompt@ == "You are a helpful assistant"@,
        r.retries == 3,
{
    Config {
        chunk_size: 50,
        api_key: None,
        log_level: String::from_str("off"),
        output_directory: String::from_str("./"),
        system_prompt: String::from_str("You are a helpful assistant"),
        retries: 3,
    }
}

/// Rejects an obviously wrong configuration before any work: a zero chunk
/// size, or an output directory that is not a directory (which the caller
/// has checked on disk).
pub fn validate_config(config: &Config, output_directory_is_dir: bool) -> (r: Result<
    (),
    AppError,
>)
    ensures
        (r is Ok <==> config.chunk_size != 0 && output_directory_is_dir),
        (config.chunk_size == 0 ==> (r matches Err(e) && e matches AppError::InvalidInput(m)
            && m@ == "Chunk size cannot be zero"@)),
        (config.chunk_size != 0 && !output_directory_is_dir ==> (r matches Err(e)
            && e matches AppError::InvalidInput(m) && m@ == "Output directory does not exist: "@
            + config.output_directory@)),
{
    if config.chunk_size == 0 {
        return Err(AppError::InvalidInput(String::from_str("Chunk size cannot be zero")));
    }
    if !output_directory_is_dir {
        let mut m = String::from_str("Output directory does not exist: ");
        m.append(config.output_directory.as_str());
        return Err(AppError::InvalidInput(m));
    }
    Ok(())
}

/// Where the configuration document lives: beside the executable, whose
/// directory the caller supplies.
pub fn get_config_path(exe_dir: &str) -> (r: String)
    ensures
        r@ == exe_dir@ + seq!['/'] + "config.toml"@,
{
    join_path(exe_dir, "config.toml")
}

/// Applies the run-settings updates of a configuration command: each given
/// value replaces the stored one, the rest stay.
pub fn apply_config_updates(
    config: &mut Config,
    set_chunk_size: Option<usize>,
    set_log_level: Option<String>,
    set_output_directory: Option<String>,
    set_retries: Option<u32>,
)
    ensures
        final(config).chunk_size == match set_chunk_size {
            Some(v) => v,
            None => old(config).chunk_size,
        },
        final(config).log_level == match set_log_level {
            Some(v) => v,
            None => old(config).log_level,
        },
        final(config).output_directory == match set_output_directory {
            Some(v) => v,
            None => old(config).output_directory,
        },
        final(config).retries == match set_retries {
            Some(v) => v,
            None => old(config).retries,
        },
        final(config).api_key == old(config).api_key,
        final(config).system_prompt == old(config).system_prompt,
{
    match set_chunk_size {
        Some(v) => {
            config.chunk_size = v;
        },
        None => {},
    }
    match set_log_level {
        Some(v) => {
            config.log_level = v;
        },
        None => {},
    }
    match set_output_directory {
        Some(v) => {
            config.output_directory = v;
        },
        None => {},
    }
    match set_retries {
        Some(v) => {
            config.retries = v;
        },
        None => {},
    }
}

/// Applies the model-settings updates of a configuration command: each given
/// value replaces the stored one, the rest stay. The temperature, a
/// transport parameter, is the caller's to update.
pub fn apply_model_config_updates(
    config: &mut Config,
    set_api_key: Option<String>,
    set_system_prompt: Option<String>,
)
    ensures
        final(config).api_key == match set_api_key {
            Some(v) => Some(v),
            None => old(config).api_key,
        },
        final(config).system_prompt == match set_system_prompt {
            Some(v) => v,
            None => old(config).system_prompt,
        },
        final(config).chunk_size == old(config).chunk_size,
        final(config).log_level == old(config).log_level,
        final(config).output_directory == old(config).output_directory,
        final(config).retries == old(config).retries,
{
    match set_api_key {
        Some(v) => {
            config.api_key = Some(v);
        },
        None => {},
    }
    match set_system_prompt {
        Some(v) => {
            config.system_prompt = v;
        },
        None => {},
    }
}

} // verus!
