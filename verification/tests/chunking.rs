use press::applier::apply_parts;
use press::chunker::{check_file_size, chunk_content, make_slots, reconstruct, MAX_FILE_SIZE};
use press::errors::AppError;
use press::models::FilePart;
use press::text::{join_lines, split_lines};

fn lines_file(n: usize) -> String {
    let mut s = String::new();
    for i in 1..=n {
        if i > 1 {
            s.push('\n');
        }
        s.push_str(&format!("line {}", i));
    }
    s
}

#[test]
fn round_trip_of_chunking() {
    let content = lines_file(7);
    for k in 1..10 {
        let chunks = chunk_content("src/a.rs", &content, k);
        assert_eq!(reconstruct(&chunks.parts), content);
    }
}

#[test]
fn zero_chunk_size_yields_one_part() {
    let content = lines_file(120);
    let chunks = chunk_content("a.rs", &content, 0);
    assert_eq!(chunks.parts.len(), 1);
    assert_eq!(chunks.parts[0].part_id, 1);
    assert_eq!(chunks.parts[0].content, content);
}

#[test]
fn hundred_twenty_lines_in_three_parts() {
    let content = lines_file(120);
    let chunks = chunk_content("big.rs", &content, 50);
    assert_eq!(chunks.parts.len(), 3);
    assert_eq!(split_lines(&chunks.parts[0].content).len(), 50);
    assert_eq!(split_lines(&chunks.parts[1].content).len(), 50);
    assert_eq!(split_lines(&chunks.parts[2].content).len(), 20);
    assert_eq!(chunks.parts[0].part_id, 1);
    assert_eq!(chunks.parts[1].part_id, 2);
    assert_eq!(chunks.parts[2].part_id, 3);
    assert_eq!(reconstruct(&chunks.parts), content);
}

#[test]
fn patching_part_two_replaces_only_the_middle() {
    let content = lines_file(120);
    let original = chunk_content("big.rs", &content, 50);
    let replacement = "replacement body".to_string();
    let patch = vec![FilePart { part_id: 2, content: replacement.clone() }];
    let merged = apply_parts(&content, 50, &patch);
    let merged_chunks = chunk_content("big.rs", &merged, 50);
    // Parts 1 and 3 byte-identical; part 2 replaced.
    assert_eq!(merged_chunks.parts[0].content, original.parts[0].content);
    assert_eq!(split_lines(&merged)[50], "replacement body");
    let tail_original: Vec<String> = split_lines(&content)[100..].to_vec();
    let merged_lines = split_lines(&merged);
    assert_eq!(&merged_lines[51..], &tail_original[..]);
}

#[test]
fn part_boundaries_are_deterministic() {
    let content = lines_file(33);
    let a = chunk_content("x", &content, 10);
    let b = chunk_content("x", &content, 10);
    assert_eq!(a, b);
}

#[test]
fn empty_content_has_no_parts_with_positive_chunk_size() {
    let chunks = chunk_content("e.txt", "", 4);
    assert_eq!(chunks.parts.len(), 0);
    assert_eq!(reconstruct(&chunks.parts), "");
}

#[test]
fn carriage_returns_are_stripped_per_line() {
    let lines = split_lines("a\r\nb\r\nc");
    assert_eq!(lines, vec!["a".to_string(), "b".to_string(), "c".to_string()]);
    assert_eq!(join_lines(&lines), "a\nb\nc");
}

#[test]
fn slots_match_chunking() {
    let content = lines_file(5);
    let slots = make_slots(&content, 2);
    assert_eq!(slots.len(), 3);
    assert_eq!(slots[0], "line 1\nline 2");
    assert_eq!(slots[2], "line 5");
}

#[test]
fn file_size_ceiling_is_enforced() {
    assert!(check_file_size(MAX_FILE_SIZE).is_ok());
    assert_eq!(check_file_size(MAX_FILE_SIZE + 1), Err(AppError::FileTooLarge));
}
