use press::chunker::chunk_content;
use press::files::{get_files_to_press, has_text_extension, is_ignored, DirEntry, PathListing};
use press::models::FilePartIds;
use press::selector::filter_out_unused_parts;

#[test]
fn an_empty_selection_entry_drops_the_file() {
    let content = "a\nb\nc";
    let chunks = vec![chunk_content("a.rs", content, 1)];
    let sel = vec![FilePartIds { file_path: "a.rs".to_string(), parts: vec![] }];
    let narrowed = filter_out_unused_parts(&chunks, &sel);
    assert!(narrowed.is_empty());
}

#[test]
fn unselected_files_are_dropped_and_order_kept() {
    let chunks = vec![
        chunk_content("a.rs", "a1\na2\na3", 1),
        chunk_content("b.rs", "b1\nb2", 1),
    ];
    let sel = vec![FilePartIds { file_path: "a.rs".to_string(), parts: vec![3, 1] }];
    let narrowed = filter_out_unused_parts(&chunks, &sel);
    assert_eq!(narrowed.len(), 1);
    assert_eq!(narrowed[0].file_path, "a.rs");
    let ids: Vec<usize> = narrowed[0].parts.iter().map(|p| p.part_id).collect();
    // Original relative order is preserved, whatever the selection's order.
    assert_eq!(ids, vec![1, 3]);
}

#[test]
fn a_later_selection_entry_supersedes_an_earlier_one() {
    let chunks = vec![chunk_content("a.rs", "a1\na2", 1)];
    let sel = vec![
        FilePartIds { file_path: "a.rs".to_string(), parts: vec![1] },
        FilePartIds { file_path: "a.rs".to_string(), parts: vec![2] },
    ];
    let narrowed = filter_out_unused_parts(&chunks, &sel);
    assert_eq!(narrowed[0].parts.len(), 1);
    assert_eq!(narrowed[0].parts[0].part_id, 2);
}

#[test]
fn ignore_list_matches_whole_components() {
    let ignored = vec!["target".to_string(), "src/gen".to_string()];
    assert!(is_ignored("target/out.rs", &ignored));
    assert!(is_ignored("target", &ignored));
    assert!(is_ignored("src/gen/x.rs", &ignored));
    assert!(!is_ignored("src/gentle/x.rs", &ignored));
    assert!(!is_ignored("src/main.rs", &ignored));
}

#[test]
fn extensions_are_matched_case_folded() {
    assert!(has_text_extension("a.rs"));
    assert!(has_text_extension("A.RS"));
    assert!(has_text_extension("x/y.TOML"));
    assert!(!has_text_extension("a.exe"));
    assert!(!has_text_extension(".gitignore"));
    assert!(!has_text_extension("noext"));
}

#[test]
fn requested_files_and_directories_are_selected() {
    let listing = vec![
        PathListing {
            path: "main.rs".to_string(),
            is_file: true,
            is_dir: false,
            entries: vec![],
        },
        PathListing {
            path: "src".to_string(),
            is_file: false,
            is_dir: true,
            entries: vec![
                DirEntry { path: "src/lib.rs".to_string(), is_file: true },
                DirEntry { path: "src/data.bin".to_string(), is_file: true },
                DirEntry { path: "src/sub".to_string(), is_file: false },
                DirEntry { path: "src/gen/out.rs".to_string(), is_file: true },
            ],
        },
        PathListing {
            path: "missing".to_string(),
            is_file: false,
            is_dir: false,
            entries: vec![],
        },
    ];
    let ignored = vec!["src/gen".to_string()];
    let files = get_files_to_press(&listing, &ignored);
    assert_eq!(files, vec!["main.rs".to_string(), "src/lib.rs".to_string()]);
}
