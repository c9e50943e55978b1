use press::applier::process_code_assistant_response;
use press::errors::AppError;
use press::fsmodel::FileMap;
use press::models::{CodeAssistantResponse, FilePart, NewFile, UpdatedFile};
use press::snapshot::{
    backup_name, checkpoint, checkpoint_name, file_name, revert_checkpoint, rollback_last_run,
    sanitize, save_rollback, strip_dot, CheckpointConfig,
};

#[test]
fn rollback_undoes_a_whole_run() {
    let mut fs = FileMap::new();
    fs.write("src/a.rs", "original a".to_string());
    let resp = CodeAssistantResponse {
        updated_files: vec![UpdatedFile {
            file_path: "a.rs".to_string(),
            parts: vec![FilePart { part_id: 1, content: "patched a".to_string() }],
        }],
        new_files: vec![NewFile { file_path: "src/b.rs".to_string(), content: "b".to_string() }],
        response: String::new(),
    };
    let paths = vec!["src/a.rs".to_string()];
    let out = process_code_assistant_response(&mut fs, &resp, &paths, "out", true, 0);
    assert_eq!(fs.read("src/a.rs").unwrap(), "patched a");
    assert_eq!(fs.read("src/b.rs").unwrap(), "b");

    let r = rollback_last_run(&mut fs, Some(&out.record), "out/.rollback");
    assert!(r.is_ok());
    // File A restored byte for byte, file B gone, backup area gone.
    assert_eq!(fs.read("src/a.rs").unwrap(), "original a");
    assert!(!fs.contains("src/b.rs"));
    assert!(!fs.contains("out/.rollback/a.rs"));
}

#[test]
fn rollback_without_a_record_reports_and_changes_nothing() {
    let mut fs = FileMap::new();
    fs.write("x.txt", "stay".to_string());
    let r = rollback_last_run(&mut fs, None, "out/.rollback");
    assert_eq!(r, Err(AppError::NoChangesToRollback));
    assert_eq!(fs.read("x.txt").unwrap(), "stay");
}

#[test]
fn save_records_an_empty_marker_for_a_missing_original() {
    let mut fs = FileMap::new();
    let rec = save_rollback(
        &mut fs,
        "out/.rollback",
        vec![],
        &vec!["ghost.txt".to_string()],
    );
    assert_eq!(rec.rollback_files, vec![("ghost.txt".to_string(), String::new())]);
}

#[test]
fn checkpoint_and_revert_restore_a_directory() {
    let mut fs = FileMap::new();
    fs.write("proj/a.txt", "a0".to_string());
    fs.write("proj/sub/b.txt", "b0".to_string());
    let files = vec!["proj/a.txt".to_string(), "proj/sub/b.txt".to_string()];
    let rec = checkpoint(&mut fs, "out/.checkpoint", &files);

    fs.write("proj/a.txt", "a1".to_string());
    fs.write("proj/sub/b.txt", "b1".to_string());

    assert!(revert_checkpoint(&mut fs, Some(&rec)).is_ok());
    assert_eq!(fs.read("proj/a.txt").unwrap(), "a0");
    assert_eq!(fs.read("proj/sub/b.txt").unwrap(), "b0");

    // Revert is repeatable: the record is not consumed.
    fs.write("proj/a.txt", "a2".to_string());
    assert!(revert_checkpoint(&mut fs, Some(&rec)).is_ok());
    assert_eq!(fs.read("proj/a.txt").unwrap(), "a0");
}

#[test]
fn a_second_checkpoint_discards_the_first() {
    let mut fs = FileMap::new();
    fs.write("p/a.txt", "a".to_string());
    fs.write("p/b.txt", "b".to_string());
    checkpoint(&mut fs, "out/.checkpoint", &vec!["p/a.txt".to_string()]);
    assert!(fs.contains("out/.checkpoint/p_a.txt"));
    checkpoint(&mut fs, "out/.checkpoint", &vec!["p/b.txt".to_string()]);
    assert!(!fs.contains("out/.checkpoint/p_a.txt"));
    assert!(fs.contains("out/.checkpoint/p_b.txt"));
}

#[test]
fn revert_without_a_checkpoint_reports_and_changes_nothing() {
    let mut fs = FileMap::new();
    fs.write("x.txt", "stay".to_string());
    let r = revert_checkpoint(&mut fs, None);
    assert_eq!(r, Err(AppError::NoCheckpointToRevert));
    assert_eq!(fs.read("x.txt").unwrap(), "stay");
}

#[test]
fn a_missing_backup_restores_nothing() {
    let mut fs = FileMap::new();
    fs.write("orig.txt", "current".to_string());
    let rec = CheckpointConfig {
        checkpoint_files: vec![("orig.txt".to_string(), "gone.bak".to_string())],
    };
    assert!(revert_checkpoint(&mut fs, Some(&rec)).is_ok());
    assert_eq!(fs.read("orig.txt").unwrap(), "current");
}

#[test]
fn backup_names_are_derived_from_paths() {
    assert_eq!(file_name("a/b/c.rs"), "c.rs");
    assert_eq!(file_name("plain.rs"), "plain.rs");
    assert_eq!(backup_name("out/.rollback", "src/deep/x.rs"), "out/.rollback/x.rs");
    assert_eq!(sanitize("a/b\\c.txt"), "a_b_c.txt");
    assert_eq!(strip_dot("./rel/p.txt"), "rel/p.txt");
    assert_eq!(strip_dot("abs/p.txt"), "abs/p.txt");
    assert_eq!(checkpoint_name("cp", "./a/b.txt"), "cp/a_b.txt");
}

#[test]
fn the_file_set_reads_back_what_was_written() {
    let mut fs = FileMap::new();
    assert!(!fs.contains("a.txt"));
    assert_eq!(fs.read("a.txt"), None);
    fs.write("a.txt", "one".to_string());
    fs.write("d/b.txt", "two".to_string());
    fs.write("a.txt", "three".to_string());
    assert_eq!(fs.read("a.txt").unwrap(), "three");
    assert_eq!(fs.read("d/b.txt").unwrap(), "two");
    fs.delete("a.txt");
    assert!(!fs.contains("a.txt"));
    fs.delete("never-there.txt");
    fs.remove_tree("d");
    assert!(!fs.contains("d/b.txt"));
}
