//! The records that are handed to the vector store: one per chunk.

use crate::loaders::chunker::{Chunk, ChunkView};
use crate::text::{lowercase, same_text, to_lowercase};
use vstd::prelude::*;
use vstd::string::StringExecFns;

verus! {

/// Where an indexed text came from.
#[derive(Debug, Clone, Copy, PartialEq, Eq, Structural)]
pub enum SourceType {
    GitHub,
    Local,
    Manual,
}

/// The word by which a kind of source is written down.
pub open spec fn source_type_label(kind: SourceType) -> Seq<char> {
    match kind {
        SourceType::GitHub => "github"@,
        SourceType::Local => "local"@,
        SourceType::Manual => "manual"@,
    }
}

/// The kind of source that a word names, whatever its case.
pub open spec fn source_type_named(word: Seq<char>) -> Option<SourceType> {
    let lower = lowercase(word);
    if lower == "github"@ {
        Some(SourceType::GitHub)
    } else if lower == "local"@ {
        Some(SourceType::Local)
    } else if lower == "manual"@ {
        Some(SourceType::Manual)
    } else {
        None
    }
}

impl SourceType {
    /// The word by which this kind is written down.
    pub fn label(&self) -> (word: String)
        ensures
            word@ == source_type_label(*self),
    {
        match self {
            SourceType::GitHub => String::from_str("github"),
            SourceType::Local => String::from_str("local"),
            SourceType::Manual => String::from_str("manual"),
        }
    }

    /// The kind that `word` names, or the complaint about a word that
    /// names none.
    pub fn parse(word: &str) -> (kind: Result<SourceType, String>)
        ensures
            match kind {
                Ok(k) => source_type_named(word@) == Some(k),
                Err(complaint) => source_type_named(word@) is None && complaint@
                    == "Unknown source type: "@ + word@,
            },
    {
        let lower = to_lowercase(word);
        if same_text(lower.as_str(), "github") {
            Ok(SourceType::GitHub)
        } else if same_text(lower.as_str(), "local") {
            Ok(SourceType::Local)
        } else if same_text(lower.as_str(), "manual") {
            Ok(SourceType::Manual)
        } else {
            let mut complaint = String::from_str("Unknown source type: ");
            complaint.append(word);
            Err(complaint)
        }
    }
}

impl std::str::FromStr for SourceType {
    type Err = String;

    /// The kind that `word` names; the same as `SourceType::parse`.
    fn from_str(word: &str) -> (kind: Result<Self, String>)
        ensures
            match kind {
                Ok(k) => source_type_named(word@) == Some(k),
                Err(complaint) => source_type_named(word@) is None && complaint@
                    == "Unknown source type: "@ + word@,
            },
    {
        SourceType::parse(word)
    }
}

/// One chunk as it is indexed, without its embedding.
#[derive(Debug, Clone)]
pub struct Document {
    pub id: String,
    pub content: String,
    pub source: String,
    pub source_type: SourceType,
    pub file_path: Option<String>,
    pub chunk_index: usize,
    pub created_at: String,
}

/// An indexed chunk as plain text.
pub struct DocumentView {
    pub id: Seq<char>,
    pub content: Seq<char>,
    pub source: Seq<char>,
    pub source_type: SourceType,
    pub file_path: Option<Seq<char>>,
    pub chunk_index: nat,
    pub created_at: Seq<char>,
}

impl View for Document {
    type V = DocumentView;

    open spec fn view(&self) -> DocumentView {
        DocumentView {
            id: self.id@,
            content: self.content@,
            source: self.source@,
            source_type: self.source_type,
            file_path: match self.file_path {
                Some(path) => Some(path@),
                None => None,
            },
            chunk_index: self.chunk_index as nat,
            created_at: self.created_at@,
        }
    }
}

/// The document that is made of a chunk of the file at `path`, with the
/// identifier `id`, at the time `created_at`.
pub open spec fn stamped(
    id: Seq<char>,
    created_at: Seq<char>,
    source: Seq<char>,
    source_type: SourceType,
    path: Seq<char>,
    chunk: ChunkView,
) -> DocumentView {
    DocumentView {
        id,
        content: chunk.content,
        source,
        source_type,
        file_path: Some(path),
        chunk_index: chunk.index,
        created_at,
    }
}

/// Whether `document` is made of `chunk` of the file at `path`, whatever
/// its identifier and the time it was made.
pub open spec fn comes_of(
    document: DocumentView,
    source: Seq<char>,
    source_type: SourceType,
    path: Seq<char>,
    chunk: ChunkView,
) -> bool {
    document == stamped(document.id, document.created_at, source, source_type, path, chunk)
}

impl Document {
    /// The document that is made of a chunk of the file at `path`.
    pub fn from_chunk(
        id: String,
        created_at: String,
        source: &str,
        source_type: SourceType,
        path: &str,
        chunk: &Chunk,
    ) -> (document: Document)
        ensures
            document@ == stamped(id@, created_at@, source@, source_type, path@, chunk@),
    {
        Document {
            id,
            content: chunk.content.clone(),
            source: String::from_str(source),
            source_type,
            file_path: Some(String::from_str(path)),
            chunk_index: chunk.index,
            created_at,
        }
    }
}

/// The views of a sequence of documents.
pub open spec fn document_views(documents: Seq<Document>) -> Seq<DocumentView> {
    Seq::new(documents.len(), |i: int| documents[i]@)
}

} // verus!
