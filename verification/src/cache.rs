//! The tag cache's rules: when cached tags may be used, when a file counts
//! as changed, and how the two kinds of entries are keyed.
//!
//! The store itself lives outside the library. It maps a file's path to its
//! cached tags, and `meta:` followed by the path to the file's metadata as
//! of its last indexing.

use vstd::prelude::*;
use std::hash::{DefaultHasher, Hash, Hasher};
use crate::text::{append_word, chars_of, range_of, string_of};

verus! {

/// The prefix of the keys of metadata entries.
pub const META_PREFIX: &'static str = "meta:";

/// A file's metadata as of its last indexing.
#[derive(Debug, Clone, Copy, PartialEq, Eq, Structural)]
pub struct FileMetaEntry {
    /// The size in bytes.
    pub file_size: u64,
    /// The modification time in Unix seconds.
    pub mtime: u64,
    /// Whether the file has been indexed.
    pub indexed: bool,
}

impl FileMetaEntry {
    /// The metadata of a file that has not been indexed yet.
    pub fn from_stat(file_size: u64, mtime: u64) -> (m: Self)
        ensures
            m == (FileMetaEntry { file_size, mtime, indexed: false }),
    {
        FileMetaEntry { file_size, mtime, indexed: false }
    }

    /// Whether a file whose metadata now is `current` has changed since
    /// this entry was made.
    pub open spec fn stale_for(&self, current: &FileMetaEntry) -> bool {
        self.file_size != current.file_size || current.mtime > self.mtime
    }

    /// Whether the file must be indexed again: its size differs, or its
    /// modification time is later than the one on record.
    pub fn needs_reindex(&self, current: &FileMetaEntry) -> (stale: bool)
        ensures
            stale == self.stale_for(current),
    {
        if self.file_size != current.file_size {
            return true;
        }
        if current.mtime > self.mtime {
            return true;
        }
        false
    }
}

/// What the cache says of a file.
#[derive(Debug, Clone, Copy, PartialEq, Eq, Structural)]
pub enum FileStatus {
    /// The cache does not know the file, or the file cannot be read.
    New,
    /// The file has changed since it was indexed.
    Modified,
    /// The file is as it was indexed.
    Unchanged,
}

/// The status of a file from its metadata now and the entry on record,
/// where either may be missing.
pub open spec fn status_of(current: Option<FileMetaEntry>, cached: Option<FileMetaEntry>)
    -> FileStatus {
    match (current, cached) {
        (Some(now), Some(then)) => if then.stale_for(&now) {
            FileStatus::Modified
        } else {
            FileStatus::Unchanged
        },
        _ => FileStatus::New,
    }
}

/// Decides a file's status. `current` is missing where the file's metadata
/// cannot be read, `cached` where the cache has no entry that can be read.
pub fn file_status(current: Option<FileMetaEntry>, cached: Option<FileMetaEntry>) -> (status:
    FileStatus)
    ensures
        status == status_of(current, cached),
{
    match current {
        Some(now) => match cached {
            Some(then) => {
                if then.needs_reindex(&now) {
                    FileStatus::Modified
                } else {
                    FileStatus::Unchanged
                }
            },
            None => FileStatus::New,
        },
        None => FileStatus::New,
    }
}

/// The tags cached for a file, with the digest of the text they were
/// made from.
#[derive(Debug, Clone)]
pub struct CacheEntry {
    pub content_hash: u64,
    pub keywords: Vec<String>,
}

/// The 64-bit digest of a text: what `std::hash::DefaultHasher` gives
/// after the text was fed to it.
pub uninterp spec fn content_hash_of(content: Seq<char>) -> u64;

/// Feeds the text to a new `std::hash::DefaultHasher` and returns what it
/// finishes with. All hashers made by `DefaultHasher::new` are the same, so
/// the digest depends on the text alone.
#[verifier::external_body]
pub(crate) fn hash_content(content: &str) -> (digest: u64)
    ensures
        digest == content_hash_of(content@),
{
    let mut hasher = DefaultHasher::new();
    content.hash(&mut hasher);
    hasher.finish()
}

/// The tags of `entry` if it was made from a text with the digest
/// `digest`.
pub fn keywords_if_fresh(entry: Option<CacheEntry>, digest: u64) -> (tags: Option<Vec<String>>)
    ensures
        tags == (match entry {
            Some(e) => if e.content_hash == digest {
                Some(e.keywords)
            } else {
                None::<Vec<String>>
            },
            None => None,
        }),
{
    match entry {
        Some(e) => {
            if e.content_hash == digest {
                Some(e.keywords)
            } else {
                None
            }
        },
        None => None,
    }
}

/// The cached tags of a file whose text is `content`: those of `entry`
/// if it was made from the same text, as far as the digests tell.
pub fn cached_keywords(entry: Option<CacheEntry>, content: &str) -> (tags: Option<Vec<String>>)
    ensures
        tags == (match entry {
            Some(e) => if e.content_hash == content_hash_of(content@) {
                Some(e.keywords)
            } else {
                None::<Vec<String>>
            },
            None => None,
        }),
{
    keywords_if_fresh(entry, hash_content(content))
}

/// The entry to cache for a file whose text is `content`.
pub fn new_cache_entry(content: &str, keywords: Vec<String>) -> (entry: CacheEntry)
    ensures
        entry.content_hash == content_hash_of(content@),
        entry.keywords == keywords,
{
    CacheEntry { content_hash: hash_content(content), keywords }
}

/// The key of the metadata entry of a path.
pub fn meta_key(file_path: &str) -> (key: String)
    ensures
        key@ == META_PREFIX@ + file_path@,
{
    let mut out = chars_of(META_PREFIX);
    append_word(&mut out, file_path);
    string_of(&out)
}

/// Whether `key` starts with the prefix of metadata keys.
pub open spec fn is_meta_key(key: Seq<char>) -> bool {
    key.len() >= META_PREFIX@.len() && key.subrange(0, META_PREFIX@.len() as int) == META_PREFIX@
}

/// The path whose metadata entry has the key `key`: the key without the
/// prefix, or the key itself where it has no prefix.
pub open spec fn path_of_key(key: Seq<char>) -> Seq<char> {
    if is_meta_key(key) {
        key.subrange(META_PREFIX@.len() as int, key.len() as int)
    } else {
        key
    }
}

/// Finds `path_of_key`.
pub fn cached_path(key: &str) -> (path: String)
    ensures
        path@ == path_of_key(key@),
{
    let chars = chars_of(key);
    let prefix = chars_of(META_PREFIX);
    if chars.len() >= prefix.len() {
        let head = range_of(&chars, 0, prefix.len());
        if crate::text::same_chars(&head, &prefix) {
            return string_of(&range_of(&chars, prefix.len(), chars.len()));
        }
    }
    string_of(&chars)
}

/// The key of a path's metadata entry leads back to the path.
pub proof fn lemma_meta_key_round_trip(path: Seq<char>)
    ensures
        is_meta_key(META_PREFIX@ + path),
        path_of_key(META_PREFIX@ + path) == path,
{
    let key = META_PREFIX@ + path;
    assert(key.subrange(0, META_PREFIX@.len() as int) =~= META_PREFIX@);
    assert(key.subrange(META_PREFIX@.len() as int, key.len() as int) =~= path);
}

} // verus!
