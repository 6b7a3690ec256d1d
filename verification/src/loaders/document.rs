//! A file of a source, cut into chunks.

use crate::loaders::chunker::{
    chunk_views, code_chunks, numbered, paragraph_chunks, Chunk, ChunkView, TextChunker,
};
use crate::text::{blank, contains_text, has_text, is_blank, same_text, to_chars};
use vstd::prelude::*;
use vstd::string::StringExecFns;

verus! {

/// How a file is cut: code by lines, prose by paragraphs.
#[derive(Debug, Clone, Copy, PartialEq, Eq, Structural)]
pub enum FileKind {
    Code,
    Doc,
}

/// The chunks of one file, with the label of its source and its path below
/// the root of the source.
#[derive(Debug, Clone)]
pub struct LoadedDocument {
    pub source: String,
    pub path: String,
    pub chunks: Vec<Chunk>,
}

/// A loaded document as plain text.
pub struct LoadedDocumentView {
    pub source: Seq<char>,
    pub path: Seq<char>,
    pub chunks: Seq<ChunkView>,
}

impl View for LoadedDocument {
    type V = LoadedDocumentView;

    open spec fn view(&self) -> LoadedDocumentView {
        LoadedDocumentView {
            source: self.source@,
            path: self.path@,
            chunks: chunk_views(self.chunks@),
        }
    }
}

/// Whether prose is kept in files with this extension.
pub open spec fn is_doc_extension(extension: Seq<char>) -> bool {
    extension == "md"@ || extension == "txt"@ || extension == "rst"@ || extension == "adoc"@
        || extension == "org"@
}

/// Whether files with this extension are program code in one of the
/// languages that every loader takes.
pub open spec fn is_language_extension(extension: Seq<char>) -> bool {
    extension == "rs"@ || extension == "py"@ || extension == "js"@ || extension == "ts"@
        || extension == "jsx"@ || extension == "tsx"@ || extension == "go"@ || extension
        == "java"@ || extension == "c"@ || extension == "cpp"@ || extension == "h"@ || extension
        == "hpp"@ || extension == "rb"@ || extension == "php"@ || extension == "swift"@
        || extension == "kt"@ || extension == "scala"@ || extension == "lua"@ || extension
        == "r"@ || extension == "zig"@
}

/// How a file with this extension is cut, if it is taken at all: the rule
/// shared by all loaders, on the extension as it is written.
pub open spec fn kind_of(extension: Seq<char>) -> Option<FileKind> {
    if is_language_extension(extension) {
        Some(FileKind::Code)
    } else if is_doc_extension(extension) {
        Some(FileKind::Doc)
    } else {
        None
    }
}

/// Whether prose is kept in files with this extension.
pub fn doc_extension(extension: &str) -> (yes: bool)
    ensures
        yes == is_doc_extension(extension@),
{
    same_text(extension, "md") || same_text(extension, "txt") || same_text(extension, "rst")
        || same_text(extension, "adoc") || same_text(extension, "org")
}

/// Whether files with this extension are program code.
pub fn language_extension(extension: &str) -> (yes: bool)
    ensures
        yes == is_language_extension(extension@),
{
    same_text(extension, "rs") || same_text(extension, "py") || same_text(extension, "js")
        || same_text(extension, "ts") || same_text(extension, "jsx") || same_text(
        extension,
        "tsx",
    ) || same_text(extension, "go") || same_text(extension, "java") || same_text(extension, "c")
        || same_text(extension, "cpp") || same_text(extension, "h") || same_text(
        extension,
        "hpp",
    ) || same_text(extension, "rb") || same_text(extension, "php") || same_text(
        extension,
        "swift",
    ) || same_text(extension, "kt") || same_text(extension, "scala") || same_text(
        extension,
        "lua",
    ) || same_text(extension, "r") || same_text(extension, "zig")
}

/// Whether a file lies under a directory that no loader enters: the
/// records of version control, build output, or fetched dependencies.
pub open spec fn is_excluded(path: Seq<char>) -> bool {
    contains_text(path, "/.git/"@) || contains_text(path, "/target/"@) || contains_text(
        path,
        "/node_modules/"@,
    ) || contains_text(path, "/__pycache__/"@)
}

/// Whether a file with this path is passed over because of the directory
/// it lies in.
pub fn excluded_path(path: &str) -> (yes: bool)
    ensures
        yes == is_excluded(path@),
{
    has_text(path, "/.git/") || has_text(path, "/target/") || has_text(path, "/node_modules/")
        || has_text(path, "/__pycache__/")
}

/// The texts of the chunks of a file of the given kind.
pub open spec fn file_chunks(kind: FileKind, content: Seq<char>, limit: nat) -> Seq<Seq<char>> {
    match kind {
        FileKind::Code => code_chunks(content, limit),
        FileKind::Doc => paragraph_chunks(content, limit),
    }
}

/// The document made of a file, or nothing where the file is left out:
/// where its text is blank, or where no chunk comes of it.
pub open spec fn document_of(
    kind: FileKind,
    source: Seq<char>,
    path: Seq<char>,
    content: Seq<char>,
    limit: nat,
) -> Option<LoadedDocumentView> {
    if blank(content) || file_chunks(kind, content, limit).len() == 0 {
        None
    } else {
        Some(
            LoadedDocumentView {
                source,
                path,
                chunks: numbered(file_chunks(kind, content, limit)),
            },
        )
    }
}

/// The view of a document that may be absent.
pub open spec fn document_view(document: Option<LoadedDocument>) -> Option<LoadedDocumentView> {
    match document {
        Some(d) => Some(d@),
        None => None,
    }
}

/// Cuts the text of a file as its kind asks.
pub fn chunk_as(chunker: &TextChunker, kind: FileKind, content: &str) -> (chunks: Vec<Chunk>)
    ensures
        chunk_views(chunks@) == numbered(file_chunks(kind, content@, chunker.size())),
{
    match kind {
        FileKind::Code => chunker.chunk_code(content),
        FileKind::Doc => chunker.chunk_by_paragraphs(content),
    }
}

/// Makes the document of a file that was found while a source was walked.
/// A file whose text is blank, or of which no chunk comes, is left out.
pub fn load_document(
    chunker: &TextChunker,
    kind: FileKind,
    source: &str,
    path: &str,
    content: &str,
) -> (document: Option<LoadedDocument>)
    ensures
        document_view(document) == document_of(kind, source@, path@, content@, chunker.size()),
{
    let chars = to_chars(content);
    if is_blank(&chars) {
        return None;
    }
    let chunks = chunk_as(chunker, kind, content);
    proof {
        let expected = file_chunks(kind, content@, chunker.size());
        assert(chunk_views(chunks@).len() == chunks@.len());
        assert(numbered(expected).len() == expected.len());
    }
    if chunks.len() == 0 {
        return None;
    }
    Some(LoadedDocument { source: String::from_str(source), path: String::from_str(path), chunks })
}

} // verus!
