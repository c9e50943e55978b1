//! The shared data model: a file split into numbered parts, a sparse part
//! selection, and the normalized shape of a patch response (updated files,
//! wholly new files, free-text commentary).

use vstd::prelude::*;

verus! {

/// One contiguous, numbered slice of a file's lines.
#[derive(Debug, Clone, PartialEq, Eq)]
pub struct FilePart {
    pub part_id: usize,
    pub content: String,
}

/// The mathematical value of a [`FilePart`].
#[verifier::ext_equal]
pub struct SpecPart {
    pub part_id: nat,
    pub content: Seq<char>,
}

impl DeepView for FilePart {
    type V = SpecPart;

    open spec fn deep_view(&self) -> SpecPart {
        SpecPart { part_id: self.part_id as nat, content: self.content@ }
    }
}

/// A file path together with its ordered parts.
#[derive(Debug, Clone, PartialEq, Eq)]
pub struct FileChunks {
    pub file_path: String,
    pub parts: Vec<FilePart>,
}

/// The mathematical value of a [`FileChunks`].
#[verifier::ext_equal]
pub struct SpecFileChunks {
    pub file_path: Seq<char>,
    pub parts: Seq<SpecPart>,
}

impl DeepView for FileChunks {
    type V = SpecFileChunks;

    open spec fn deep_view(&self) -> SpecFileChunks {
        SpecFileChunks { file_path: self.file_path@, parts: self.parts.deep_view() }
    }
}

/// A file path together with the part ids requested for it.
#[derive(Debug, Clone, PartialEq, Eq)]
pub struct FilePartIds {
    pub file_path: String,
    pub parts: Vec<usize>,
}

/// The mathematical value of a [`FilePartIds`].
#[verifier::ext_equal]
pub struct SpecFilePartIds {
    pub file_path: Seq<char>,
    pub parts: Seq<nat>,
}

impl DeepView for FilePartIds {
    type V = SpecFilePartIds;

    open spec fn deep_view(&self) -> SpecFilePartIds {
        SpecFilePartIds {
            file_path: self.file_path@,
            parts: self.parts@.map_values(|x: usize| x as nat),
        }
    }
}

/// Replacement parts for one existing file; the ids refer to the same
/// chunking scheme that produced the original parts.
#[derive(Debug, Clone, PartialEq, Eq)]
pub struct UpdatedFile {
    pub file_path: String,
    pub parts: Vec<FilePart>,
}

/// The mathematical value of an [`UpdatedFile`].
#[verifier::ext_equal]
pub struct SpecUpdatedFile {
    pub file_path: Seq<char>,
    pub parts: Seq<SpecPart>,
}

impl DeepView for UpdatedFile {
    type V = SpecUpdatedFile;

    open spec fn deep_view(&self) -> SpecUpdatedFile {
        SpecUpdatedFile { file_path: self.file_path@, parts: self.parts.deep_view() }
    }
}

/// Literal whole-file content for a file the patch creates.
#[derive(Debug, Clone, PartialEq, Eq)]
pub struct NewFile {
    pub file_path: String,
    pub content: String,
}

/// The mathematical value of a [`NewFile`].
#[verifier::ext_equal]
pub struct SpecNewFile {
    pub file_path: Seq<char>,
    pub content: Seq<char>,
}

impl DeepView for NewFile {
    type V = SpecNewFile;

    open spec fn deep_view(&self) -> SpecNewFile {
        SpecNewFile { file_path: self.file_path@, content: self.content@ }
    }
}

/// The normalized result of parsing a patch response, whichever wire format
/// produced it.
#[derive(Debug, Clone, PartialEq, Eq)]
pub struct CodeAssistantResponse {
    pub updated_files: Vec<UpdatedFile>,
    pub new_files: Vec<NewFile>,
    pub response: String,
}

/// The mathematical value of a [`CodeAssistantResponse`].
#[verifier::ext_equal]
pub struct SpecResponse {
    pub updated_files: Seq<SpecUpdatedFile>,
    pub new_files: Seq<SpecNewFile>,
    pub response: Seq<char>,
}

impl DeepView for CodeAssistantResponse {
    type V = SpecResponse;

    open spec fn deep_view(&self) -> SpecResponse {
        SpecResponse {
            updated_files: self.updated_files.deep_view(),
            new_files: self.new_files.deep_view(),
            response: self.response@,
        }
    }
}

/// One file of a preprocessor reply: the part ids to edit, as unparsed
/// decimal strings.
#[derive(Debug, Clone, PartialEq, Eq)]
pub struct FileParts {
    pub file_path: String,
    pub parts: Vec<String>,
}

/// The mathematical value of a [`FileParts`].
#[verifier::ext_equal]
pub struct SpecFileParts {
    pub file_path: Seq<char>,
    pub parts: Seq<Seq<char>>,
}

impl DeepView for FileParts {
    type V = SpecFileParts;

    open spec fn deep_view(&self) -> SpecFileParts {
        SpecFileParts { file_path: self.file_path@, parts: self.parts.deep_view() }
    }
}

/// The normalized result of parsing a preprocessor reply: which parts of
/// which files the second pass should receive, and commentary.
#[derive(Debug, Clone, PartialEq, Eq)]
pub struct PreprocessorResponse {
    pub parts_to_edit: Vec<FileParts>,
    pub preprocessor_prompt: String,
}

/// The mathematical value of a [`PreprocessorResponse`].
#[verifier::ext_equal]
pub struct SpecPreprocessorResponse {
    pub parts_to_edit: Seq<SpecFileParts>,
    pub preprocessor_prompt: Seq<char>,
}

impl DeepView for PreprocessorResponse {
    type V = SpecPreprocessorResponse;

    open spec fn deep_view(&self) -> SpecPreprocessorResponse {
        SpecPreprocessorResponse {
            parts_to_edit: self.parts_to_edit.deep_view(),
            preprocessor_prompt: self.preprocessor_prompt@,
        }
    }
}

} // verus!
