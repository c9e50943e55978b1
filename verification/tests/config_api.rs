use press::api::{compose_system_prompt, compose_user_prompt, retry_step};
use press::config::{
    apply_config_updates, apply_model_config_updates, default_config, get_config_path,
    validate_config,
};
use press::errors::AppError;

#[test]
fn defaults_match_a_first_run() {
    let c = default_config();
    assert_eq!(c.chunk_size, 50);
    assert_eq!(c.api_key, None);
    assert_eq!(c.log_level, "off");
    assert_eq!(c.output_directory, "./");
    assert_eq!(c.system_prompt, "You are a helpful assistant");
    assert_eq!(c.retries, 3);
}

#[test]
fn validation_rejects_a_zero_chunk_size() {
    let mut c = default_config();
    c.chunk_size = 0;
    assert_eq!(
        validate_config(&c, true),
        Err(AppError::InvalidInput("Chunk size cannot be zero".to_string()))
    );
}

#[test]
fn validation_rejects_a_missing_output_directory() {
    let c = default_config();
    assert_eq!(
        validate_config(&c, false),
        Err(AppError::InvalidInput(
            "Output directory does not exist: ./".to_string()
        ))
    );
    assert!(validate_config(&c, true).is_ok());
}

#[test]
fn updates_replace_only_what_was_given() {
    let mut c = default_config();
    apply_config_updates(&mut c, Some(25), None, Some("build".to_string()), None);
    assert_eq!(c.chunk_size, 25);
    assert_eq!(c.log_level, "off");
    assert_eq!(c.output_directory, "build");
    assert_eq!(c.retries, 3);
    apply_model_config_updates(&mut c, Some("test-key-123".to_string()), None);
    assert_eq!(c.api_key, Some("test-key-123".to_string()));
    assert_eq!(c.system_prompt, "You are a helpful assistant");
}

#[test]
fn config_lives_beside_the_executable() {
    assert_eq!(get_config_path("/opt/bin"), "/opt/bin/config.toml");
}

#[test]
fn prompts_are_assembled_in_their_containers() {
    assert_eq!(
        compose_user_prompt("FILES", "do it", "IMPORTANT"),
        "<code_files>FILES</code_files> <user_prompt>do it</user_prompt> \
         <important>IMPORTANT</important>"
    );
    assert_eq!(
        compose_system_prompt("BASE", "mine"),
        "<system_prompt>BASE</system_prompt> <user_system_prompt>mine</user_system_prompt>"
    );
}

#[test]
fn retries_count_down_to_a_surfaced_failure() {
    assert_eq!(retry_step(3), Some(2));
    assert_eq!(retry_step(1), Some(0));
    assert_eq!(retry_step(0), None);
}

#[test]
fn failure_messages_are_distinct_and_readable() {
    assert_eq!(AppError::NoChangesToRollback.message(), "No changes to rollback");
    assert_eq!(AppError::NoCheckpointToRevert.message(), "No checkpoint to revert to");
    assert_eq!(AppError::FileTooLarge.message(), "File too large");
    assert_eq!(
        AppError::UnresolvedPath("a.rs".to_string()).message(),
        "No on-disk counterpart for path: a.rs"
    );
    assert_eq!(
        AppError::InvalidInput("bad".to_string()).message(),
        "Invalid input: bad"
    );
}
