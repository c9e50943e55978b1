use press::applier::{apply_parts, process_code_assistant_response, resolve_path};
use press::fsmodel::FileMap;
use press::models::{CodeAssistantResponse, FilePart, NewFile, UpdatedFile};

#[test]
fn out_of_range_ids_change_nothing() {
    let content = "a\nb\nc\nd";
    let patch = vec![
        FilePart { part_id: 0, content: "ZERO".to_string() },
        FilePart { part_id: 3, content: "TOO BIG".to_string() },
    ];
    // Two slots of two lines each: ids 0 and 3 are out of range.
    assert_eq!(apply_parts(content, 2, &patch), content);
}

#[test]
fn in_range_id_overwrites_its_slot() {
    let content = "a\nb\nc\nd";
    let patch = vec![FilePart { part_id: 2, content: "C\nD".to_string() }];
    assert_eq!(apply_parts(content, 2, &patch), "a\nb\nC\nD");
}

#[test]
fn later_part_with_same_id_wins() {
    let content = "a\nb";
    let patch = vec![
        FilePart { part_id: 1, content: "first".to_string() },
        FilePart { part_id: 1, content: "second".to_string() },
    ];
    assert_eq!(apply_parts(content, 0, &patch), "second");
}

#[test]
fn resolution_prefers_exact_match_then_first_suffix() {
    let paths = vec![
        "src/deep/a.rs".to_string(),
        "a.rs".to_string(),
        "other/a.rs".to_string(),
    ];
    // Exact match wins even though an earlier path also ends with "a.rs".
    assert_eq!(resolve_path(&paths, "a.rs"), Some(1));
    // No exact match: the first suffix match wins.
    assert_eq!(resolve_path(&paths, "deep/a.rs"), Some(0));
    assert_eq!(resolve_path(&paths, "missing.rs"), None);
}

fn one_file_response(path: &str, part_id: usize, content: &str) -> CodeAssistantResponse {
    CodeAssistantResponse {
        updated_files: vec![UpdatedFile {
            file_path: path.to_string(),
            parts: vec![FilePart { part_id, content: content.to_string() }],
        }],
        new_files: vec![],
        response: String::new(),
    }
}

#[test]
fn auto_mode_overwrites_the_original() {
    let mut fs = FileMap::new();
    fs.write("src/a.rs", "old one\nold two".to_string());
    let resp = one_file_response("a.rs", 1, "new one");
    let paths = vec!["src/a.rs".to_string()];
    let out = process_code_assistant_response(&mut fs, &resp, &paths, "out", true, 1);
    assert_eq!(out.saved_files, 1);
    assert_eq!(out.new_files, 0);
    assert!(out.skipped.is_empty());
    assert_eq!(fs.read("src/a.rs").unwrap(), "new one\nold two");
    // The pre-write content went into the rollback backup.
    assert_eq!(fs.read("out/.rollback/a.rs").unwrap(), "old one\nold two");
    assert_eq!(
        out.record.rollback_files,
        vec![("src/a.rs".to_string(), "out/.rollback/a.rs".to_string())]
    );
}

#[test]
fn staged_mode_leaves_the_original_alone() {
    let mut fs = FileMap::new();
    fs.write("src/a.rs", "old".to_string());
    let resp = one_file_response("a.rs", 1, "new");
    let paths = vec!["src/a.rs".to_string()];
    process_code_assistant_response(&mut fs, &resp, &paths, "out", false, 0);
    assert_eq!(fs.read("src/a.rs").unwrap(), "old");
    assert_eq!(fs.read("out/code/a.rs").unwrap(), "new");
}

#[test]
fn unresolved_paths_are_skipped_not_fatal() {
    let mut fs = FileMap::new();
    fs.write("src/a.rs", "keep".to_string());
    let resp = one_file_response("nowhere.rs", 1, "new");
    let paths = vec!["src/a.rs".to_string()];
    let out = process_code_assistant_response(&mut fs, &resp, &paths, "out", true, 0);
    assert_eq!(out.saved_files, 0);
    assert_eq!(out.skipped, vec!["nowhere.rs".to_string()]);
    assert_eq!(fs.read("src/a.rs").unwrap(), "keep");
}

#[test]
fn new_files_and_commentary_are_written() {
    let mut fs = FileMap::new();
    let resp = CodeAssistantResponse {
        updated_files: vec![],
        new_files: vec![NewFile {
            file_path: "brand/new.rs".to_string(),
            content: "fresh".to_string(),
        }],
        response: "explanation".to_string(),
    };
    let paths: Vec<String> = vec![];
    let out = process_code_assistant_response(&mut fs, &resp, &paths, "out", true, 0);
    assert_eq!(out.new_files, 1);
    assert_eq!(fs.read("brand/new.rs").unwrap(), "fresh");
    assert_eq!(fs.read("out/response.txt").unwrap(), "explanation");
    assert_eq!(out.record.new_files, vec!["brand/new.rs".to_string()]);
}
