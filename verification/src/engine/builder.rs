//! Setting an engine up.

use vstd::prelude::*;
use std::sync::Arc;
use crate::config::{Config, INDEX_WRITER_MEMORY};
use crate::engine::error::EngineError;
use crate::schema::{
    build_schema, document_fields, has_field, SchemaDescriptor, FIELD_BODY, FIELD_CREATED_TIME,
    FIELD_FILENAME, FIELD_FILE_SIZE, FIELD_FILE_TYPE, FIELD_INDEXED_TIME, FIELD_MODIFIED_TIME,
    FIELD_PARENT_PATH, FIELD_PATH, FIELD_TAGS, FIELD_TITLE,
};
use crate::text::{append_word, chars_of, string_of};

verus! {

/// The directory of the index where neither the builder nor the
/// configuration names one.
pub const DEFAULT_STORAGE_DIR: &'static str = "storage";

/// The directory of the keyword model where neither the builder nor the
/// configuration names one.
pub const DEFAULT_MODEL_DIR: &'static str = "model";

/// Collects the settings of an engine.
pub struct SearchEngineBuilder {
    config: Option<Arc<Config>>,
    storage_path: Option<String>,
    heap_size: usize,
    enable_ai: bool,
    model_path: Option<String>,
}

/// What a builder holds, as plain values.
pub struct BuilderView {
    pub config: Option<Config>,
    pub storage_path: Option<Seq<char>>,
    pub heap_size: usize,
    pub enable_ai: bool,
    pub model_path: Option<Seq<char>>,
}

/// The text of an optional string.
pub open spec fn text_of(s: Option<String>) -> Option<Seq<char>> {
    match s {
        Some(t) => Some(t@),
        None => None,
    }
}

impl View for SearchEngineBuilder {
    type V = BuilderView;

    closed spec fn view(&self) -> BuilderView {
        BuilderView {
            config: match self.config {
                Some(c) => Some(*c),
                None => None,
            },
            storage_path: text_of(self.storage_path),
            heap_size: self.heap_size,
            enable_ai: self.enable_ai,
            model_path: text_of(self.model_path),
        }
    }
}

impl BuilderView {
    /// A builder that was told nothing: the writer gets 50 MB and keyword
    /// extraction is on.
    pub open spec fn initial() -> BuilderView {
        BuilderView {
            config: None,
            storage_path: None,
            heap_size: 50_000_000,
            enable_ai: true,
            model_path: None,
        }
    }

    /// The directory of the index: the builder's, else the
    /// configuration's, else `storage`.
    pub open spec fn storage_dir(self) -> Seq<char> {
        match self.storage_path {
            Some(p) => p,
            None => match self.config {
                Some(c) => match c.index_config.storage_path {
                    Some(p) => p@,
                    None => DEFAULT_STORAGE_DIR@,
                },
                None => DEFAULT_STORAGE_DIR@,
            },
        }
    }

    /// The directory of the keyword model, if keyword extraction is on:
    /// the builder's, else the configuration's, else `model`.
    pub open spec fn model_dir(self) -> Option<Seq<char>> {
        if self.enable_ai {
            Some(
                match self.model_path {
                    Some(p) => p,
                    None => match self.config {
                        Some(c) => match c.ai_config.model_path {
                            Some(p) => p@,
                            None => DEFAULT_MODEL_DIR@,
                        },
                        None => DEFAULT_MODEL_DIR@,
                    },
                },
            )
        } else {
            None
        }
    }
}

impl Default for SearchEngineBuilder {
    fn default() -> (b: Self)
        ensures
            b@ == BuilderView::initial(),
    {
        SearchEngineBuilder {
            config: None,
            storage_path: None,
            heap_size: INDEX_WRITER_MEMORY,
            enable_ai: true,
            model_path: None,
        }
    }
}

/// What an engine is made from.
pub struct EngineSettings {
    pub config: Arc<Config>,
    /// The directory of the index.
    pub storage_path: String,
    /// The memory of the index writer, in bytes.
    pub heap_size: usize,
    /// The directory of the keyword model, if keywords are extracted.
    pub model_path: Option<String>,
    pub schema: SchemaDescriptor,
}

impl SearchEngineBuilder {
    pub fn new() -> (b: Self)
        ensures
            b@ == BuilderView::initial(),
    {
        SearchEngineBuilder {
            config: None,
            storage_path: None,
            heap_size: INDEX_WRITER_MEMORY,
            enable_ai: true,
            model_path: None,
        }
    }

    pub fn with_config(self, config: Arc<Config>) -> (b: Self)
        ensures
            b@ == (BuilderView { config: Some(*config), ..self@ }),
    {
        SearchEngineBuilder { config: Some(config), ..self }
    }

    pub fn with_storage_path(self, path: &str) -> (b: Self)
        ensures
            b@ == (BuilderView { storage_path: Some(path@), ..self@ }),
    {
        SearchEngineBuilder { storage_path: Some(path.to_owned()), ..self }
    }

    pub fn with_heap_size(self, size: usize) -> (b: Self)
        ensures
            b@ == (BuilderView { heap_size: size, ..self@ }),
    {
        SearchEngineBuilder { heap_size: size, ..self }
    }

    pub fn with_ai(self, enable: bool) -> (b: Self)
        ensures
            b@ == (BuilderView { enable_ai: enable, ..self@ }),
    {
        SearchEngineBuilder { enable_ai: enable, ..self }
    }

    pub fn with_model_path(self, path: &str) -> (b: Self)
        ensures
            b@ == (BuilderView { model_path: Some(path@), ..self@ }),
    {
        SearchEngineBuilder { model_path: Some(path.to_owned()), ..self }
    }

    /// What the engine is made from: the configuration that was given or
    /// else the default one, the directories by the builder's rules, the
    /// writer's memory, and the schema of the index.
    pub fn settings(self) -> (s: EngineSettings)
        ensures
            s.storage_path@ == self@.storage_dir(),
            text_of(s.model_path) == self@.model_dir(),
            s.heap_size == self@.heap_size,
            s.schema@ == document_fields(),
            match self@.config {
                Some(c) => *s.config == c,
                None => s.config.is_default(),
            },
    {
        let config = match self.config {
            Some(c) => c,
            None => Arc::new(Config::default()),
        };
        let storage_path = match self.storage_path {
            Some(p) => p,
            None => match &config.index_config.storage_path {
                Some(p) => p.clone(),
                None => DEFAULT_STORAGE_DIR.to_owned(),
            },
        };
        let model_path = if self.enable_ai {
            Some(
                match self.model_path {
                    Some(p) => p,
                    None => match &config.ai_config.model_path {
                        Some(p) => p.clone(),
                        None => DEFAULT_MODEL_DIR.to_owned(),
                    },
                },
            )
        } else {
            None
        };
        EngineSettings {
            config,
            storage_path,
            heap_size: self.heap_size,
            model_path,
            schema: build_schema(),
        }
    }
}

/// The handles of the fields of a document.
#[derive(Debug, Clone, Copy, PartialEq, Eq, Structural)]
pub struct FieldHandles {
    pub title: usize,
    pub body: usize,
    pub tags: usize,
    pub path: usize,
    pub parent_path: usize,
    pub filename: usize,
    pub file_type: usize,
    pub file_size: usize,
    pub modified_time: usize,
    pub created_time: usize,
    pub indexed_time: usize,
}

/// The names of the fields of a document, in the order in which their
/// handles are looked up.
pub open spec fn wanted_fields() -> Seq<Seq<char>> {
    seq![
        FIELD_TITLE@,
        FIELD_BODY@,
        FIELD_TAGS@,
        FIELD_PATH@,
        FIELD_PARENT_PATH@,
        FIELD_FILENAME@,
        FIELD_FILE_TYPE@,
        FIELD_FILE_SIZE@,
        FIELD_MODIFIED_TIME@,
        FIELD_CREATED_TIME@,
        FIELD_INDEXED_TIME@,
    ]
}

/// The first of the wanted fields from position `from` on that the schema
/// lacks.
pub open spec fn first_missing(schema: Seq<crate::schema::FieldView>, from: int) -> Option<
    Seq<char>,
>
    decreases wanted_fields().len() - from,
{
    if from < 0 || from >= wanted_fields().len() {
        None
    } else if !has_field(schema, wanted_fields()[from]) {
        Some(wanted_fields()[from])
    } else {
        first_missing(schema, from + 1)
    }
}

/// Whether `e` is the configuration error that names `name` as missing.
pub open spec fn is_missing_field(e: EngineError, name: Seq<char>) -> bool {
    e matches EngineError::Config(m) && m@ == "Missing field: "@ + name
}

/// The handle of the field `name`, or the error that names it as missing.
fn handle(schema: &SchemaDescriptor, name: &str) -> (r: Result<usize, EngineError>)
    ensures
        match r {
            Ok(i) => has_field(schema@, name@) && crate::schema::field_index(schema@, name@)
                == Some(i as int),
            Err(e) => !has_field(schema@, name@) && is_missing_field(e, name@),
        },
{
    match schema.get_field(name) {
        Some(i) => Ok(i),
        None => {
            let mut out = chars_of("Missing field: ");
            append_word(&mut out, name);
            Err(EngineError::Config(string_of(&out)))
        },
    }
}

/// The handles of the fields of a document in `schema`. Where the schema
/// lacks one, the error is a configuration error that names the first that
/// is missing.
pub fn resolve_fields(schema: &SchemaDescriptor) -> (r: Result<FieldHandles, EngineError>)
    ensures
        match r {
            Ok(h) => {
                &&& first_missing(schema@, 0) is None
                &&& crate::schema::field_index(schema@, FIELD_TITLE@) == Some(h.title as int)
                &&& crate::schema::field_index(schema@, FIELD_BODY@) == Some(h.body as int)
                &&& crate::schema::field_index(schema@, FIELD_TAGS@) == Some(h.tags as int)
                &&& crate::schema::field_index(schema@, FIELD_PATH@) == Some(h.path as int)
                &&& crate::schema::field_index(schema@, FIELD_PARENT_PATH@) == Some(
                    h.parent_path as int,
                )
                &&& crate::schema::field_index(schema@, FIELD_FILENAME@) == Some(h.filename as int)
                &&& crate::schema::field_index(schema@, FIELD_FILE_TYPE@) == Some(
                    h.file_type as int,
                )
                &&& crate::schema::field_index(schema@, FIELD_FILE_SIZE@) == Some(
                    h.file_size as int,
                )
                &&& crate::schema::field_index(schema@, FIELD_MODIFIED_TIME@) == Some(
                    h.modified_time as int,
                )
                &&& crate::schema::field_index(schema@, FIELD_CREATED_TIME@) == Some(
                    h.created_time as int,
                )
                &&& crate::schema::field_index(schema@, FIELD_INDEXED_TIME@) == Some(
                    h.indexed_time as int,
                )
            },
            Err(e) => first_missing(schema@, 0) matches Some(name) && is_missing_field(e, name),
        },
{
    reveal_with_fuel(first_missing, 12);
    let title = match handle(schema, FIELD_TITLE) {
        Ok(i) => i,
        Err(e) => {
            return Err(e);
        },
    };
    let body = match handle(schema, FIELD_BODY) {
        Ok(i) => i,
        Err(e) => {
            return Err(e);
        },
    };
    let tags = match handle(schema, FIELD_TAGS) {
        Ok(i) => i,
        Err(e) => {
            return Err(e);
        },
    };
    let path = match handle(schema, FIELD_PATH) {
        Ok(i) => i,
        Err(e) => {
            return Err(e);
        },
    };
    let parent_path = match handle(schema, FIELD_PARENT_PATH) {
        Ok(i) => i,
        Err(e) => {
            return Err(e);
        },
    };
    let filename = match handle(schema, FIELD_FILENAME) {
        Ok(i) => i,
        Err(e) => {
            return Err(e);
        },
    };
    let file_type = match handle(schema, FIELD_FILE_TYPE) {
        Ok(i) => i,
        Err(e) => {
            return Err(e);
        },
    };
    let file_size = match handle(schema, FIELD_FILE_SIZE) {
        Ok(i) => i,
        Err(e) => {
            return Err(e);
        },
    };
    let modified_time = match handle(schema, FIELD_MODIFIED_TIME) {
        Ok(i) => i,
        Err(e) => {
            return Err(e);
        },
    };
    let created_time = match handle(schema, FIELD_CREATED_TIME) {
        Ok(i) => i,
        Err(e) => {
            return Err(e);
        },
    };
    let indexed_time = match handle(schema, FIELD_INDEXED_TIME) {
        Ok(i) => i,
        Err(e) => {
            return Err(e);
        },
    };
    Ok(
        FieldHandles {
            title,
            body,
            tags,
            path,
            parent_path,
            filename,
            file_type,
            file_size,
            modified_time,
            created_time,
            indexed_time,
        },
    )
}

} // verus!
