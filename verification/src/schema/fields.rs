//! The names of the index's fields.

use vstd::prelude::*;

verus! {

/// The file's stem, tokenized.
pub const FIELD_TITLE: &'static str = "title";

/// The extracted text, tokenized.
pub const FIELD_BODY: &'static str = "body";

/// The keyword tags, tokenized, one value for each tag.
pub const FIELD_TAGS: &'static str = "tags";

/// The canonical path: the key by which a document is replaced.
pub const FIELD_PATH: &'static str = "path";

/// The directory that holds the file.
pub const FIELD_PARENT_PATH: &'static str = "parent_path";

/// The file's name with its extension.
pub const FIELD_FILENAME: &'static str = "filename";

/// The extension, lower-cased and without the dot.
pub const FIELD_FILE_TYPE: &'static str = "file_type";

/// The size in bytes.
pub const FIELD_FILE_SIZE: &'static str = "file_size";

/// When the file was last changed, in Unix seconds.
pub const FIELD_MODIFIED_TIME: &'static str = "modified_time";

/// When the file was created, in Unix seconds.
pub const FIELD_CREATED_TIME: &'static str = "created_time";

/// When the document was indexed, in Unix seconds.
pub const FIELD_INDEXED_TIME: &'static str = "indexed_time";

} // verus!
