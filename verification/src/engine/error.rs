//! What can go wrong.

use vstd::prelude::*;
use crate::api::response::ErrorResponse;
use crate::text::{append_word, chars_of, string_of};

verus! {

/// An error of the engine, with what it was about.
#[derive(Debug, Clone)]
pub enum EngineError {
    /// The index library failed.
    Tantivy(String),
    /// Reading or writing a file failed.
    Io(String),
    /// The storage directory cannot be opened.
    Directory(String),
    /// The text of the query cannot be turned into an index query.
    QueryParse(String),
    /// The index cannot take the document.
    Index(String),
    /// The file to index does not exist.
    FileNotFound(String),
    /// The schema lacks a field, or a setting is wrong.
    Config(String),
    /// The file's type is not supported, or its text cannot be read.
    Extraction(String),
    /// A cache entry cannot be read or written.
    Cache(String),
    /// The file system cannot be watched.
    Watcher(String),
}

/// The outcome of an engine operation.
pub type EngineResult<T> = Result<T, EngineError>;

impl EngineError {
    /// The name of the kind of error.
    pub open spec fn code_text(&self) -> Seq<char> {
        match self {
            EngineError::Tantivy(_) => "Tantivy"@,
            EngineError::Io(_) => "Io"@,
            EngineError::Directory(_) => "Directory"@,
            EngineError::QueryParse(_) => "QueryParse"@,
            EngineError::Index(_) => "Index"@,
            EngineError::FileNotFound(_) => "FileNotFound"@,
            EngineError::Config(_) => "Config"@,
            EngineError::Extraction(_) => "Extraction"@,
            EngineError::Cache(_) => "Cache"@,
            EngineError::Watcher(_) => "Watcher"@,
        }
    }

    /// How the message of the kind of error begins.
    pub open spec fn lead_text(&self) -> Seq<char> {
        match self {
            EngineError::Tantivy(_) => "Tantivy error: "@,
            EngineError::Io(_) => "IO error: "@,
            EngineError::Directory(_) => "Directory error: "@,
            EngineError::QueryParse(_) => "Query parse error: "@,
            EngineError::Index(_) => "Index error: "@,
            EngineError::FileNotFound(_) => "File not found: "@,
            EngineError::Config(_) => "Configuration error: "@,
            EngineError::Extraction(_) => "Extraction error: "@,
            EngineError::Cache(_) => "Cache error: "@,
            EngineError::Watcher(_) => "Watcher error: "@,
        }
    }

    /// What the error was about.
    pub open spec fn detail_text(&self) -> Seq<char> {
        match self {
            EngineError::Tantivy(d) => d@,
            EngineError::Io(d) => d@,
            EngineError::Directory(d) => d@,
            EngineError::QueryParse(d) => d@,
            EngineError::Index(d) => d@,
            EngineError::FileNotFound(d) => d@,
            EngineError::Config(d) => d@,
            EngineError::Extraction(d) => d@,
            EngineError::Cache(d) => d@,
            EngineError::Watcher(d) => d@,
        }
    }

    /// The name of the kind of error.
    pub fn code(&self) -> (code: &'static str)
        ensures
            code@ == self.code_text(),
    {
        match self {
            EngineError::Tantivy(_) => "Tantivy",
            EngineError::Io(_) => "Io",
            EngineError::Directory(_) => "Directory",
            EngineError::QueryParse(_) => "QueryParse",
            EngineError::Index(_) => "Index",
            EngineError::FileNotFound(_) => "FileNotFound",
            EngineError::Config(_) => "Config",
            EngineError::Extraction(_) => "Extraction",
            EngineError::Cache(_) => "Cache",
            EngineError::Watcher(_) => "Watcher",
        }
    }

    /// The message: the kind in words, then what the error was about.
    pub fn message(&self) -> (message: String)
        ensures
            message@ == self.lead_text() + self.detail_text(),
    {
        let (lead, detail): (&str, &String) = match self {
            EngineError::Tantivy(d) => ("Tantivy error: ", d),
            EngineError::Io(d) => ("IO error: ", d),
            EngineError::Directory(d) => ("Directory error: ", d),
            EngineError::QueryParse(d) => ("Query parse error: ", d),
            EngineError::Index(d) => ("Index error: ", d),
            EngineError::FileNotFound(d) => ("File not found: ", d),
            EngineError::Config(d) => ("Configuration error: ", d),
            EngineError::Extraction(d) => ("Extraction error: ", d),
            EngineError::Cache(d) => ("Cache error: ", d),
            EngineError::Watcher(d) => ("Watcher error: ", d),
        };
        let mut out = chars_of(lead);
        append_word(&mut out, detail.as_str());
        string_of(&out)
    }

    /// The error as a caller receives it: the code and the message, without
    /// details.
    pub fn to_response(&self) -> (response: ErrorResponse)
        ensures
            response.code@ == self.code_text(),
            response.message@ == self.lead_text() + self.detail_text(),
            response.details is None,
    {
        ErrorResponse::new(self.code(), self.message().as_str())
    }

    /// Whether the error concerns one file only, so that the file is
    /// skipped and the work goes on.
    pub fn is_per_file(&self) -> (skip: bool)
        ensures
            skip == (self is Extraction || self is FileNotFound || self is Io || self is Cache),
    {
        match self {
            EngineError::Extraction(_) => true,
            EngineError::FileNotFound(_) => true,
            EngineError::Io(_) => true,
            EngineError::Cache(_) => true,
            _ => false,
        }
    }
}

} // verus!
