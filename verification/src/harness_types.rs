//! Values that the parts of a harness exchange: skills and prompt templates,
//! file-system and shell values, and the errors of each part.

use vstd::prelude::*;

use crate::text::{concat3, concat4, text_of_option};
use crate::types::{copy_text, JsF64};

verus! {

/// A skill: instructions that a model can be given by name.
pub struct Skill {
    /// Stable name, used for lookup and in listings.
    pub name: String,
    /// When to use the skill.
    pub description: String,
    /// The instructions.
    pub content: String,
    /// Absolute path of the skill's file.
    pub file_path: String,
    /// Whether the skill is left out of listings for the model.
    pub disable_model_invocation: Option<bool>,
}

/// A prompt with placeholders for arguments.
pub struct PromptTemplate {
    /// Stable name, used for lookup.
    pub name: String,
    /// Shown in lists of commands.
    pub description: Option<String>,
    /// The text with its placeholders.
    pub content: String,
}

/// The resources that an application gives to a harness.
pub struct AgentHarnessResources {
    pub prompt_templates: Option<Vec<PromptTemplate>>,
    pub skills: Option<Vec<Skill>>,
}

impl Clone for Skill {
    fn clone(&self) -> (r: Self)
        ensures
            r == *self,
    {
        Skill {
            name: self.name.clone(),
            description: self.description.clone(),
            content: self.content.clone(),
            file_path: self.file_path.clone(),
            disable_model_invocation: self.disable_model_invocation,
        }
    }
}

impl Clone for PromptTemplate {
    fn clone(&self) -> (r: Self)
        ensures
            r == *self,
    {
        PromptTemplate {
            name: self.name.clone(),
            description: copy_text(&self.description),
            content: self.content.clone(),
        }
    }
}

// ---------------------------------------------------------------------------
// Files
// ---------------------------------------------------------------------------

/// What kind of object a path addresses.
#[derive(Clone, Copy, PartialEq, Eq, Structural, Debug)]
pub enum FileKind {
    File,
    Directory,
    Symlink,
}

/// What is known of the object that a path addresses.
pub struct FileInfo {
    /// The last part of the path.
    pub name: String,
    /// The absolute path.
    pub path: String,
    /// The kind of the object; links are not followed.
    pub kind: FileKind,
    /// The size in bytes.
    pub size: u64,
    /// The time of the last modification, in milliseconds.
    pub mtime_ms: JsF64,
}

impl Clone for FileInfo {
    fn clone(&self) -> (r: Self)
        ensures
            r == *self,
    {
        FileInfo {
            name: self.name.clone(),
            path: self.path.clone(),
            kind: self.kind,
            size: self.size,
            mtime_ms: self.mtime_ms,
        }
    }
}

/// Why a file operation failed.
#[derive(Clone, Copy, PartialEq, Eq, Structural, Debug)]
pub enum FileErrorCode {
    Aborted,
    NotFound,
    PermissionDenied,
    NotDirectory,
    IsDirectory,
    Invalid,
    NotSupported,
    Unknown,
}

/// The name of a file error code.
pub open spec fn file_error_name(code: FileErrorCode) -> Seq<char> {
    match code {
        FileErrorCode::Aborted => "aborted"@,
        FileErrorCode::NotFound => "not_found"@,
        FileErrorCode::PermissionDenied => "permission_denied"@,
        FileErrorCode::NotDirectory => "not_directory"@,
        FileErrorCode::IsDirectory => "is_directory"@,
        FileErrorCode::Invalid => "invalid"@,
        FileErrorCode::NotSupported => "not_supported"@,
        FileErrorCode::Unknown => "unknown"@,
    }
}

fn error_code_name(code: FileErrorCode) -> (r: &'static str)
    ensures
        r@ == file_error_name(code),
{
    match code {
        FileErrorCode::Aborted => "aborted",
        FileErrorCode::NotFound => "not_found",
        FileErrorCode::PermissionDenied => "permission_denied",
        FileErrorCode::NotDirectory => "not_directory",
        FileErrorCode::IsDirectory => "is_directory",
        FileErrorCode::Invalid => "invalid",
        FileErrorCode::NotSupported => "not_supported",
        FileErrorCode::Unknown => "unknown",
    }
}

/// A failed file operation.
pub struct FileError {
    pub code: FileErrorCode,
    pub message: String,
    /// The path that the operation addressed, when it is known.
    pub path: Option<String>,
}

/// The mathematical value of a [`FileError`].
pub struct FileErrorView {
    pub code: FileErrorCode,
    pub message: Seq<char>,
    pub path: Option<Seq<char>>,
}

impl View for FileError {
    type V = FileErrorView;

    open spec fn view(&self) -> FileErrorView {
        FileErrorView {
            code: self.code,
            message: self.message@,
            path: text_of_option(self.path),
        }
    }
}

impl Clone for FileError {
    fn clone(&self) -> (r: Self)
        ensures
            r == *self,
    {
        FileError {
            code: self.code,
            message: self.message.clone(),
            path: copy_text(&self.path),
        }
    }
}

/// A file error as text.
pub open spec fn file_error_text(e: FileErrorView) -> Seq<char> {
    match e.path {
        Some(path) => file_error_name(e.code) + ": "@ + e.message + " ("@ + path + ")"@,
        None => file_error_name(e.code) + ": "@ + e.message,
    }
}

impl FileError {
    /// An error without a path.
    pub fn new(code: FileErrorCode, message: String) -> (r: Self)
        ensures
            r@ == (FileErrorView { code, message: message@, path: None }),
    {
        FileError { code, message, path: None }
    }

    /// An error with a path.
    pub fn with_path(code: FileErrorCode, message: String, path: String) -> (r: Self)
        ensures
            r@ == (FileErrorView { code, message: message@, path: Some(path@) }),
    {
        FileError { code, message, path: Some(path) }
    }

    /// The error as text: its code, its message and its path.
    pub fn display(&self) -> (r: String)
        ensures
            r@ == file_error_text(self@),
    {
        let name: &'static str = error_code_name(self.code);
        match &self.path {
            Some(path) => {
                let head: String = concat3(name, ": ", self.message.as_str());
                concat4(head.as_str(), " (", path.as_str(), ")")
            },
            None => concat3(name, ": ", self.message.as_str()),
        }
    }
}

/// What is written to a file.
pub enum WriteContent {
    Text(String),
    Bytes(Vec<u8>),
}

impl From<String> for WriteContent {
    fn from(text: String) -> (r: Self) {
        WriteContent::Text(text)
    }
}

impl vstd::std_specs::convert::FromSpecImpl<String> for WriteContent {
    open spec fn obeys_from_spec() -> bool {
        true
    }

    open spec fn from_spec(text: String) -> Self {
        WriteContent::Text(text)
    }
}

impl From<Vec<u8>> for WriteContent {
    fn from(bytes: Vec<u8>) -> (r: Self) {
        WriteContent::Bytes(bytes)
    }
}

impl vstd::std_specs::convert::FromSpecImpl<Vec<u8>> for WriteContent {
    open spec fn obeys_from_spec() -> bool {
        true
    }

    open spec fn from_spec(bytes: Vec<u8>) -> Self {
        WriteContent::Bytes(bytes)
    }
}

/// How many lines to read.
#[derive(Clone, Copy, PartialEq, Eq, Structural, Debug)]
pub struct ReadTextLinesOptions {
    pub max_lines: Option<usize>,
}

/// How a directory is created.
#[derive(Clone, Copy, PartialEq, Eq, Structural, Debug)]
pub struct CreateDirOptions {
    pub recursive: Option<bool>,
}

/// How something is removed.
#[derive(Clone, Copy, PartialEq, Eq, Structural, Debug)]
pub struct RemoveOptions {
    pub recursive: Option<bool>,
    pub force: Option<bool>,
}

/// How a temporary file is named.
pub struct CreateTempFileOptions {
    pub prefix: Option<String>,
    pub suffix: Option<String>,
}

// ---------------------------------------------------------------------------
// Shell
// ---------------------------------------------------------------------------

/// The outcome of a command.
pub struct ShellExecResult {
    pub stdout: String,
    pub stderr: String,
    pub exit_code: i32,
}

/// Why a command could not be run.
#[derive(Clone, Copy, PartialEq, Eq, Structural, Debug)]
pub enum ExecutionErrorCode {
    Aborted,
    Timeout,
    ShellUnavailable,
    SpawnError,
    CallbackError,
    Unknown,
}

/// The name of an execution error code.
pub open spec fn execution_error_name(code: ExecutionErrorCode) -> Seq<char> {
    match code {
        ExecutionErrorCode::Aborted => "aborted"@,
        ExecutionErrorCode::Timeout => "timeout"@,
        ExecutionErrorCode::ShellUnavailable => "shell_unavailable"@,
        ExecutionErrorCode::SpawnError => "spawn_error"@,
        ExecutionErrorCode::CallbackError => "callback_error"@,
        ExecutionErrorCode::Unknown => "unknown"@,
    }
}

/// A command that could not be run.
pub struct ExecutionError {
    pub code: ExecutionErrorCode,
    pub message: String,
}

impl ExecutionError {
    pub fn new(code: ExecutionErrorCode, message: String) -> (r: Self)
        ensures
            r.code == code,
            r.message@ == message@,
    {
        ExecutionError { code, message }
    }

    /// The error as text: its code and its message.
    pub fn display(&self) -> (r: String)
        ensures
            r@ == execution_error_name(self.code) + ": "@ + self.message@,
    {
        let name: &'static str = match self.code {
            ExecutionErrorCode::Aborted => "aborted",
            ExecutionErrorCode::Timeout => "timeout",
            ExecutionErrorCode::ShellUnavailable => "shell_unavailable",
            ExecutionErrorCode::SpawnError => "spawn_error",
            ExecutionErrorCode::CallbackError => "callback_error",
            ExecutionErrorCode::Unknown => "unknown",
        };
        concat3(name, ": ", self.message.as_str())
    }
}

impl Clone for ExecutionError {
    fn clone(&self) -> (r: Self)
        ensures
            r == *self,
    {
        ExecutionError { code: self.code, message: self.message.clone() }
    }
}

// ---------------------------------------------------------------------------
// Summaries
// ---------------------------------------------------------------------------

/// Why a compaction failed.
#[derive(Clone, Copy, PartialEq, Eq, Structural, Debug)]
pub enum CompactionErrorCode {
    Aborted,
    SummarizationFailed,
}

/// The name of a compaction error code.
pub open spec fn compaction_error_name(code: CompactionErrorCode) -> Seq<char> {
    match code {
        CompactionErrorCode::Aborted => "aborted"@,
        CompactionErrorCode::SummarizationFailed => "summarization_failed"@,
    }
}

/// A failed compaction.
pub struct CompactionError {
    pub code: CompactionErrorCode,
    pub message: String,
}

/// The mathematical value of a [`CompactionError`].
pub struct CompactionErrorView {
    pub code: CompactionErrorCode,
    pub message: Seq<char>,
}

impl View for CompactionError {
    type V = CompactionErrorView;

    open spec fn view(&self) -> CompactionErrorView {
        CompactionErrorView { code: self.code, message: self.message@ }
    }
}

impl CompactionError {
    pub fn new(code: CompactionErrorCode, message: String) -> (r: Self)
        ensures
            r@ == (CompactionErrorView { code, message: message@ }),
    {
        CompactionError { code, message }
    }

    /// The error as text: its code and its message.
    pub fn display(&self) -> (r: String)
        ensures
            r@ == compaction_error_name(self.code) + ": "@ + self.message@,
    {
        let name: &'static str = match self.code {
            CompactionErrorCode::Aborted => "aborted",
            CompactionErrorCode::SummarizationFailed => "summarization_failed",
        };
        concat3(name, ": ", self.message.as_str())
    }
}

/// Why the summary of a branch failed.
#[derive(Clone, Copy, PartialEq, Eq, Structural, Debug)]
pub enum BranchSummaryErrorCode {
    Aborted,
    SummarizationFailed,
}

/// The name of a branch-summary error code.
pub open spec fn branch_summary_error_name(code: BranchSummaryErrorCode) -> Seq<char> {
    match code {
        BranchSummaryErrorCode::Aborted => "aborted"@,
        BranchSummaryErrorCode::SummarizationFailed => "summarization_failed"@,
    }
}

/// A failed summary of a branch.
pub struct BranchSummaryError {
    pub code: BranchSummaryErrorCode,
    pub message: String,
}

/// The mathematical value of a [`BranchSummaryError`].
pub struct BranchSummaryErrorView {
    pub code: BranchSummaryErrorCode,
    pub message: Seq<char>,
}

impl View for BranchSummaryError {
    type V = BranchSummaryErrorView;

    open spec fn view(&self) -> BranchSummaryErrorView {
        BranchSummaryErrorView { code: self.code, message: self.message@ }
    }
}

impl BranchSummaryError {
    pub fn new(code: BranchSummaryErrorCode, message: String) -> (r: Self)
        ensures
            r@ == (BranchSummaryErrorView { code, message: message@ }),
    {
        BranchSummaryError { code, message }
    }

    /// The error as text: its code and its message.
    pub fn display(&self) -> (r: String)
        ensures
            r@ == branch_summary_error_name(self.code) + ": "@ + self.message@,
    {
        let name: &'static str = match self.code {
            BranchSummaryErrorCode::Aborted => "aborted",
            BranchSummaryErrorCode::SummarizationFailed => "summarization_failed",
        };
        concat3(name, ": ", self.message.as_str())
    }
}

} // verus!
