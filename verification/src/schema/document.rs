//! A document as it goes into the index.

use vstd::prelude::*;
use vstd::std_specs::convert::FromSpecImpl;
use crate::paths::{
    extension, extension_of, file_name, file_name_of, file_stem, file_stem_of, or_empty, parent,
    parent_of, string_or_empty,
};
use crate::text::{
    chars_of_each, join_spaced, join_with_space, lowercase, lowercase_of, string_of,
};

verus! {

/// A file's content with its tags and metadata.
#[derive(Debug, Clone)]
pub struct IndexDocument {
    /// The file's stem.
    pub title: String,
    /// The extracted text.
    pub content: String,
    /// The keyword tags.
    pub tags: Vec<String>,
    pub metadata: FileMetadata,
}

/// What is known of a file besides its content.
#[derive(Debug, Clone)]
pub struct FileMetadata {
    /// The canonical path.
    pub path: String,
    /// The path without its last component.
    pub parent_path: String,
    /// The last component of the path.
    pub filename: String,
    /// The extension, lower-cased and without the dot.
    pub file_type: String,
    /// The size in bytes.
    pub file_size: u64,
    /// When the file was last changed, in Unix seconds.
    pub modified_time: u64,
    /// When the file was created, in Unix seconds.
    pub created_time: u64,
    /// When the document was made, in Unix seconds.
    pub indexed_time: u64,
}

/// A file's metadata as plain values.
pub struct MetadataView {
    pub path: Seq<char>,
    pub parent_path: Seq<char>,
    pub filename: Seq<char>,
    pub file_type: Seq<char>,
    pub file_size: u64,
    pub modified_time: u64,
    pub created_time: u64,
    pub indexed_time: u64,
}

/// A document as plain values.
pub struct DocumentView {
    pub title: Seq<char>,
    pub content: Seq<char>,
    pub tags: Seq<Seq<char>>,
    pub metadata: MetadataView,
}

impl View for FileMetadata {
    type V = MetadataView;

    open spec fn view(&self) -> MetadataView {
        MetadataView {
            path: self.path@,
            parent_path: self.parent_path@,
            filename: self.filename@,
            file_type: self.file_type@,
            file_size: self.file_size,
            modified_time: self.modified_time,
            created_time: self.created_time,
            indexed_time: self.indexed_time,
        }
    }
}

impl View for IndexDocument {
    type V = DocumentView;

    open spec fn view(&self) -> DocumentView {
        DocumentView {
            title: self.title@,
            content: self.content@,
            tags: crate::text::string_views(self.tags@),
            metadata: self.metadata@,
        }
    }
}

/// What the file system says of a file.
#[derive(Debug, Clone, Copy, PartialEq, Eq, Structural)]
pub struct FileStat {
    pub file_size: u64,
    pub modified_time: u64,
    pub created_time: u64,
}

impl FileMetadata {
    /// The metadata of the file at the canonical path `path`, read at the
    /// time `now`. The parent, the name and the type are taken from the
    /// path, and are empty where the path has none.
    pub fn describe(path: &str, stat: FileStat, now: u64) -> (m: Self)
        ensures
            m.path@ == path@,
            m.parent_path@ == or_empty(parent_of(path@)),
            m.filename@ == or_empty(file_name_of(path@)),
            m.file_type@ == (match extension_of(path@) {
                Some(e) => lowercase_of(e),
                None => Seq::empty(),
            }),
            m.file_size == stat.file_size,
            m.modified_time == stat.modified_time,
            m.created_time == stat.created_time,
            m.indexed_time == now,
    {
        let file_type = match extension(path) {
            Some(e) => lowercase(e.as_str()),
            None => String::new(),
        };
        FileMetadata {
            path: path.to_owned(),
            parent_path: string_or_empty(parent(path)),
            filename: string_or_empty(file_name(path)),
            file_type,
            file_size: stat.file_size,
            modified_time: stat.modified_time,
            created_time: stat.created_time,
            indexed_time: now,
        }
    }
}

/// The title of the document of a file: the stem of the file's name, or
/// nothing where the path has no file name.
pub fn title_of(path: &str) -> (title: String)
    ensures
        title@ == or_empty(file_stem_of(path@)),
{
    string_or_empty(file_stem(path))
}

impl IndexDocument {
    pub fn new(title: String, content: String, tags: Vec<String>, metadata: FileMetadata) -> (d:
        Self)
        ensures
            d.title == title,
            d.content == content,
            d.tags == tags,
            d.metadata == metadata,
    {
        IndexDocument { title, content, tags, metadata }
    }

    /// The tags in one string, with a space between neighbours.
    pub fn tags_string(&self) -> (s: String)
        ensures
            s@ == join_spaced(crate::text::string_views(self.tags@)),
    {
        string_of(&join_with_space(&chars_of_each(self.tags.as_slice())))
    }
}

/// A file's title, content and path.
#[derive(Debug, Clone)]
pub struct FileDoc {
    pub title: String,
    pub content: String,
    pub path: String,
}

impl From<IndexDocument> for FileDoc {
    fn from(doc: IndexDocument) -> (f: Self) {
        FileDoc { title: doc.title, content: doc.content, path: doc.metadata.path }
    }
}

impl FromSpecImpl<IndexDocument> for FileDoc {
    open spec fn obeys_from_spec() -> bool {
        true
    }

    open spec fn from_spec(doc: IndexDocument) -> Self {
        FileDoc { title: doc.title, content: doc.content, path: doc.metadata.path }
    }
}

impl From<&IndexDocument> for FileDoc {
    fn from(doc: &IndexDocument) -> (f: Self) {
        FileDoc {
            title: doc.title.clone(),
            content: doc.content.clone(),
            path: doc.metadata.path.clone(),
        }
    }
}

impl FromSpecImpl<&IndexDocument> for FileDoc {
    open spec fn obeys_from_spec() -> bool {
        true
    }

    open spec fn from_spec(doc: &IndexDocument) -> Self {
        FileDoc { title: doc.title, content: doc.content, path: doc.metadata.path }
    }
}

impl FileDoc {
    /// The title, content and path of a document.
    pub fn of(doc: &IndexDocument) -> (f: Self)
        ensures
            f.title == doc.title,
            f.content == doc.content,
            f.path == doc.metadata.path,
    {
        FileDoc {
            title: doc.title.clone(),
            content: doc.content.clone(),
            path: doc.metadata.path.clone(),
        }
    }
}

} // verus!
