//! The index's schema: which fields a document has, and how each is
//! indexed.

pub mod document;
pub mod fields;

pub use document::{
    title_of, DocumentView, FileDoc, FileMetadata, FileStat, IndexDocument, MetadataView,
};
pub use fields::{
    FIELD_BODY, FIELD_CREATED_TIME, FIELD_FILENAME, FIELD_FILE_SIZE, FIELD_FILE_TYPE,
    FIELD_INDEXED_TIME, FIELD_MODIFIED_TIME, FIELD_PARENT_PATH, FIELD_PATH, FIELD_TAGS,
    FIELD_TITLE,
};

use vstd::prelude::*;
use crate::text::{chars_of, is_word};

verus! {

/// How a field is indexed.
#[derive(Debug, Clone, Copy, PartialEq, Eq, Structural)]
pub enum FieldKind {
    /// Text cut into words by the segmenter, with positions, so that
    /// phrases can be found.
    Text,
    /// A string matched as a whole.
    Keyword,
    /// An unsigned 64-bit number kept in a column, for ranges and sorting.
    Number,
}

/// One field of the schema.
#[derive(Debug, Clone)]
pub struct FieldDescriptor {
    pub name: String,
    pub kind: FieldKind,
    /// Whether the value can be read back from a hit.
    pub stored: bool,
}

/// A field as plain values.
pub struct FieldView {
    pub name: Seq<char>,
    pub kind: FieldKind,
    pub stored: bool,
}

impl View for FieldDescriptor {
    type V = FieldView;

    open spec fn view(&self) -> FieldView {
        FieldView { name: self.name@, kind: self.kind, stored: self.stored }
    }
}

/// The fields of an index, in the order of their handles.
#[derive(Debug, Clone)]
pub struct SchemaDescriptor {
    pub fields: Vec<FieldDescriptor>,
}

impl View for SchemaDescriptor {
    type V = Seq<FieldView>;

    open spec fn view(&self) -> Seq<FieldView> {
        self.fields@.map_values(|f: FieldDescriptor| f@)
    }
}

/// The name of the segmenter that cuts text fields into words.
pub const TOKENIZER_NAME: &'static str = "jieba";

/// A stored field named `name` of kind `kind`.
pub open spec fn stored_field(name: Seq<char>, kind: FieldKind) -> FieldView {
    FieldView { name, kind, stored: true }
}

/// The fields of a document of this index.
pub open spec fn document_fields() -> Seq<FieldView> {
    seq![
        stored_field(FIELD_TITLE@, FieldKind::Text),
        stored_field(FIELD_BODY@, FieldKind::Text),
        stored_field(FIELD_TAGS@, FieldKind::Text),
        stored_field(FIELD_PATH@, FieldKind::Keyword),
        stored_field(FIELD_PARENT_PATH@, FieldKind::Keyword),
        stored_field(FIELD_FILENAME@, FieldKind::Keyword),
        stored_field(FIELD_FILE_TYPE@, FieldKind::Keyword),
        stored_field(FIELD_FILE_SIZE@, FieldKind::Number),
        stored_field(FIELD_MODIFIED_TIME@, FieldKind::Number),
        stored_field(FIELD_CREATED_TIME@, FieldKind::Number),
        stored_field(FIELD_INDEXED_TIME@, FieldKind::Number),
    ]
}

/// The handle of the first field named `name`.
pub open spec fn field_index(fields: Seq<FieldView>, name: Seq<char>) -> Option<int>
    decreases fields.len(),
{
    if fields.len() == 0 {
        None
    } else if fields[0].name == name {
        Some(0)
    } else {
        match field_index(fields.drop_first(), name) {
            Some(i) => Some(i + 1),
            None => None,
        }
    }
}

/// Whether the schema has a field named `name`.
pub open spec fn has_field(fields: Seq<FieldView>, name: Seq<char>) -> bool {
    exists|i: int| 0 <= i < fields.len() && #[trigger] fields[i].name == name
}

/// `field_index` finds a field exactly where there is one of that name.
pub proof fn lemma_field_index(fields: Seq<FieldView>, name: Seq<char>)
    ensures
        field_index(fields, name) is Some <==> has_field(fields, name),
        field_index(fields, name) matches Some(i) ==> 0 <= i < fields.len() && fields[i].name
            == name,
    decreases fields.len(),
{
    if fields.len() > 0 && fields[0].name != name {
        let rest = fields.drop_first();
        lemma_field_index(rest, name);
        if has_field(fields, name) {
            let i = choose|i: int| 0 <= i < fields.len() && #[trigger] fields[i].name == name;
            assert(rest[i - 1].name == name);
        }
        if has_field(rest, name) {
            let i = choose|i: int| 0 <= i < rest.len() && #[trigger] rest[i].name == name;
            assert(fields[i + 1].name == name);
        }
    } else if fields.len() > 0 {
        assert(fields[0].name == name);
    }
}

fn field(name: &str, kind: FieldKind) -> (f: FieldDescriptor)
    ensures
        f@ == stored_field(name@, kind),
{
    FieldDescriptor { name: name.to_owned(), kind, stored: true }
}

/// The schema of the index.
pub fn build_schema() -> (schema: SchemaDescriptor)
    ensures
        schema@ == document_fields(),
{
    let mut fields: Vec<FieldDescriptor> = Vec::new();
    fields.push(field(FIELD_TITLE, FieldKind::Text));
    fields.push(field(FIELD_BODY, FieldKind::Text));
    fields.push(field(FIELD_TAGS, FieldKind::Text));
    fields.push(field(FIELD_PATH, FieldKind::Keyword));
    fields.push(field(FIELD_PARENT_PATH, FieldKind::Keyword));
    fields.push(field(FIELD_FILENAME, FieldKind::Keyword));
    fields.push(field(FIELD_FILE_TYPE, FieldKind::Keyword));
    fields.push(field(FIELD_FILE_SIZE, FieldKind::Number));
    fields.push(field(FIELD_MODIFIED_TIME, FieldKind::Number));
    fields.push(field(FIELD_CREATED_TIME, FieldKind::Number));
    fields.push(field(FIELD_INDEXED_TIME, FieldKind::Number));
    let schema = SchemaDescriptor { fields };
    assert(schema@ =~= document_fields());
    schema
}

impl SchemaDescriptor {
    /// The handle of the field named `name`: its position in the schema.
    pub fn get_field(&self, name: &str) -> (handle: Option<usize>)
        ensures
            handle is Some <==> has_field(self@, name@),
            match handle {
                Some(i) => field_index(self@, name@) == Some(i as int) && i < self.fields.len()
                    && self.fields[i as int].name@ == name@,
                None => field_index(self@, name@) is None,
            },
    {
        let ghost all = self@;
        let mut i: usize = 0;
        assert(all.skip(0) =~= all);
        while i < self.fields.len()
            invariant
                i <= self.fields.len(),
                all == self@,
                field_index(all, name@) == (match field_index(all.skip(i as int), name@) {
                    Some(k) => Some(k + i),
                    None => None,
                }),
            decreases self.fields.len() - i,
        {
            proof {
                assert(all.skip(i as int).drop_first() =~= all.skip(i + 1));
                assert(all.skip(i as int)[0] == self.fields[i as int]@);
            }
            let own = chars_of(self.fields[i].name.as_str());
            if is_word(&own, name) {
                proof {
                    lemma_field_index(all, name@);
                }
                return Some(i);
            }
            i += 1;
        }
        proof {
            lemma_field_index(all, name@);
        }
        None
    }
}

} // verus!
