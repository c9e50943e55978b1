use press::errors::AppError;
use press::parser::{parse_parts_to_edit, parse_response, parse_usize, split_ids, tokenize, Token};
use press::prompt::filter_preprocessed_prompt;
use press::models::{FilePartIds, FileParts, PreprocessorResponse};
use press::parser::selection_of_preprocessor;

#[test]
fn single_part_update() {
    let r = parse_response("<file path='a.rs' parts='2'><part id=\"1\">X</part></file>").unwrap();
    assert_eq!(r.updated_files.len(), 1);
    assert_eq!(r.updated_files[0].file_path, "a.rs");
    assert_eq!(r.updated_files[0].parts.len(), 1);
    assert_eq!(r.updated_files[0].parts[0].part_id, 1);
    assert_eq!(r.updated_files[0].parts[0].content, "X");
    assert_eq!(r.new_files.len(), 0);
    assert_eq!(r.response, "");
}

#[test]
fn update_new_file_and_commentary_together() {
    let text = "<file path='a.rs'><part id='2'>two</part></file>\
                <new_file path='b/new.rs'><part id='0'>created</part></new_file>\
                <response>all done</response>";
    let r = parse_response(text).unwrap();
    assert_eq!(r.updated_files.len(), 1);
    assert_eq!(r.updated_files[0].parts[0].part_id, 2);
    assert_eq!(r.updated_files[0].parts[0].content, "two");
    assert_eq!(r.new_files.len(), 1);
    assert_eq!(r.new_files[0].file_path, "b/new.rs");
    assert_eq!(r.new_files[0].content, "created");
    assert_eq!(r.response, "all done");
}

#[test]
fn unparseable_part_id_becomes_sentinel_zero() {
    let r = parse_response("<file path='a.rs'><part id='x7'>body</part></file>").unwrap();
    assert_eq!(r.updated_files[0].parts[0].part_id, 0);
}

#[test]
fn entities_are_decoded_and_cdata_kept_verbatim() {
    let r = parse_response(
        "<file path='a.rs'><part id='1'>a &lt;b&gt; &amp; c</part></file>",
    )
    .unwrap();
    assert_eq!(r.updated_files[0].parts[0].content, "a <b> & c");
    let r2 = parse_response("<file path='a.rs'><part id='1'><![CDATA[x < y & z]]></part></file>")
        .unwrap();
    assert_eq!(r2.updated_files[0].parts[0].content, "x < y & z");
}

#[test]
fn comments_and_unknown_tags_are_skipped() {
    let r = parse_response(
        "<!-- note --><odd>stray</odd><file path='a.rs'><part id='1'>X</part></file>",
    )
    .unwrap();
    assert_eq!(r.updated_files.len(), 1);
    assert_eq!(r.updated_files[0].parts[0].content, "X");
}

#[test]
fn unterminated_tag_fails_the_whole_parse() {
    assert_eq!(
        parse_response("<file path='a.rs'><part id='1'>X</part"),
        Err(AppError::PatchFormatError)
    );
    assert_eq!(
        parse_response("<![CDATA[never closed"),
        Err(AppError::PatchFormatError)
    );
}

#[test]
fn tokenizer_reads_start_end_and_text() {
    let toks = tokenize("<file path='p'>hi</file>").unwrap();
    assert_eq!(toks.len(), 3);
    match &toks[0] {
        Token::Start { name, attrs } => {
            assert_eq!(name, "file");
            assert_eq!(attrs.len(), 1);
            assert_eq!(attrs[0].0, "path");
            assert_eq!(attrs[0].1, "p");
        }
        _ => panic!("expected a start tag"),
    }
    match &toks[1] {
        Token::Text { content } => assert_eq!(content, "hi"),
        _ => panic!("expected text"),
    }
    match &toks[2] {
        Token::End { name } => assert_eq!(name, "file"),
        _ => panic!("expected an end tag"),
    }
}

#[test]
fn parts_to_edit_section_is_collected_in_order() {
    let sel = parse_parts_to_edit(
        "<parts_to_edit><file path='a.rs' parts='1,2'></file>\
         <file path='b.rs' parts='3,oops,4'></file></parts_to_edit>",
    )
    .unwrap();
    assert_eq!(
        sel,
        vec![
            FilePartIds { file_path: "a.rs".to_string(), parts: vec![1, 2] },
            FilePartIds { file_path: "b.rs".to_string(), parts: vec![3, 4] },
        ]
    );
}

#[test]
fn decimal_parsing_is_strict() {
    assert_eq!(parse_usize("12"), Some(12));
    assert_eq!(parse_usize("0"), Some(0));
    assert_eq!(parse_usize(""), None);
    assert_eq!(parse_usize("+3"), None);
    assert_eq!(parse_usize("4x"), None);
    assert_eq!(parse_usize("999999999999999999999999999999"), None);
}

#[test]
fn id_lists_skip_unparseable_pieces() {
    assert_eq!(split_ids("1,2,3"), vec![1, 2, 3]);
    assert_eq!(split_ids("7"), vec![7]);
    assert_eq!(split_ids("a,,2,"), vec![2]);
    assert_eq!(split_ids(""), Vec::<usize>::new());
}

#[test]
fn filtering_a_prompt_keeps_only_requested_parts() {
    let prompt = "<file path='a.rs'><part id='1'>one</part><part id='2'>two</part></file>\
                  <file path='b.rs'><part id='1'>bee</part></file>";
    let sel = vec![FilePartIds { file_path: "a.rs".to_string(), parts: vec![2] }];
    let out = filter_preprocessed_prompt(prompt, &sel).unwrap();
    assert_eq!(out, "<file path=\"a.rs\"><part id=\"2\">two</part></file>");
}

#[test]
fn filtering_reencodes_entities() {
    let prompt = "<file path='a.rs'><part id='1'>x &lt; y</part></file>";
    let sel = vec![FilePartIds { file_path: "a.rs".to_string(), parts: vec![1] }];
    let out = filter_preprocessed_prompt(prompt, &sel).unwrap();
    assert_eq!(out, "<file path=\"a.rs\"><part id=\"1\">x &lt; y</part></file>");
}

#[test]
fn structured_selection_normalizes_string_ids() {
    let pre = PreprocessorResponse {
        parts_to_edit: vec![FileParts {
            file_path: "a.rs".to_string(),
            parts: vec!["1".to_string(), "7".to_string(), "zap".to_string()],
        }],
        preprocessor_prompt: "why".to_string(),
    };
    let sel = selection_of_preprocessor(&pre);
    assert_eq!(sel.len(), 1);
    assert_eq!(sel[0].file_path, "a.rs");
    assert_eq!(sel[0].parts, vec![1, 7, 0]);
}

#[test]
fn a_bare_ampersand_stands_for_itself() {
    let r = parse_response("<file path='a.rs'><part id='1'>a &b; &ltx</part></file>").unwrap();
    assert_eq!(r.updated_files[0].parts[0].content, "a &b; &ltx");
}

#[test]
fn self_closing_tags_and_declarations_are_ignored() {
    let r = parse_response(
        "<?xml version='1.0'?><meta/><file path='a.rs'><part id='1'>X</part></file>",
    )
    .unwrap();
    assert_eq!(r.updated_files.len(), 1);
    assert_eq!(r.updated_files[0].parts[0].content, "X");
}

#[test]
fn surrounding_whitespace_of_text_is_trimmed() {
    let r = parse_response("<file path='a.rs'><part id='1'>\n   X  \n</part></file>").unwrap();
    assert_eq!(r.updated_files[0].parts[0].content, "X");
}
