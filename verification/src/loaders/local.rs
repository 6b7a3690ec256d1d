//! Files of a directory on this machine.

use crate::loaders::chunker::{numbered, TextChunker};
use crate::loaders::document::{
    chunk_as, doc_extension, document_of, document_view, excluded_path, file_chunks,
    is_doc_extension, is_excluded, is_language_extension, language_extension, load_document,
    FileKind, LoadedDocument, LoadedDocumentView,
};
use crate::text::{blank, is_blank, lowercase, same_text, to_chars, to_lowercase};
use vstd::prelude::*;
use vstd::string::StringExecFns;

verus! {

/// Whether files with this extension hold settings, data or scripts, which
/// a local directory has cut like code.
pub open spec fn is_config_extension(extension: Seq<char>) -> bool {
    extension == "toml"@ || extension == "yaml"@ || extension == "yml"@ || extension == "json"@
        || extension == "sql"@ || extension == "sh"@ || extension == "bash"@
}

/// How a file of a local directory is cut, if it is taken at all. Upper and
/// lower case in the extension make no difference.
pub open spec fn local_kind_of(extension: Seq<char>) -> Option<FileKind> {
    let lower = lowercase(extension);
    if is_language_extension(lower) || is_config_extension(lower) {
        Some(FileKind::Code)
    } else if is_doc_extension(lower) {
        Some(FileKind::Doc)
    } else {
        None
    }
}

/// Whether files with this extension hold settings, data or scripts.
pub fn config_extension(extension: &str) -> (yes: bool)
    ensures
        yes == is_config_extension(extension@),
{
    same_text(extension, "toml") || same_text(extension, "yaml") || same_text(extension, "yml")
        || same_text(extension, "json") || same_text(extension, "sql") || same_text(
        extension,
        "sh",
    ) || same_text(extension, "bash")
}

/// Loads the files of a local directory.
pub struct LocalLoader {
    chunker: TextChunker,
}

impl LocalLoader {
    /// The number of words that a chunk should hold.
    pub closed spec fn size(&self) -> nat {
        self.chunker.size()
    }

    /// The number of words that two neighbouring windows share.
    pub closed spec fn overlap(&self) -> nat {
        self.chunker.overlap()
    }

    /// A loader that cuts files into chunks of `chunk_size` words.
    pub fn new(chunk_size: usize, chunk_overlap: usize) -> (loader: Self)
        ensures
            loader.size() == chunk_size,
            loader.overlap() == chunk_overlap,
    {
        Self { chunker: TextChunker::new(chunk_size, chunk_overlap) }
    }

    /// How a file with this extension is cut, or `None` for a file that is
    /// passed over.
    pub fn file_kind(extension: &str) -> (kind: Option<FileKind>)
        ensures
            kind == local_kind_of(extension@),
    {
        let lower = to_lowercase(extension);
        if language_extension(lower.as_str()) || config_extension(lower.as_str()) {
            Some(FileKind::Code)
        } else if doc_extension(lower.as_str()) {
            Some(FileKind::Doc)
        } else {
            None
        }
    }

    /// Whether a file with this path is passed over because of the
    /// directory it lies in.
    pub fn excluded(path: &str) -> (yes: bool)
        ensures
            yes == is_excluded(path@),
    {
        excluded_path(path)
    }

    /// The document of one file found under a directory: `source` is the
    /// name of the directory, `path` the file's path below it.
    pub fn load_entry(&self, kind: FileKind, source: &str, path: &str, content: &str) -> (document:
        Option<LoadedDocument>)
        ensures
            document_view(document) == document_of(kind, source@, path@, content@, self.size()),
    {
        load_document(&self.chunker, kind, source, path, content)
    }

    /// The documents of a file that was named on its own: none if its text
    /// is blank, else one, labelled with the file's name, whatever comes of
    /// the cut. A file that is not code is cut as prose.
    pub fn load_file(&self, file_name: &str, extension: &str, content: &str) -> (documents: Vec<
        LoadedDocument,
    >)
        ensures
            blank(content@) ==> documents@.len() == 0,
            !blank(content@) ==> documents@.len() == 1 && documents@[0]@ == (LoadedDocumentView {
                source: file_name@,
                path: file_name@,
                chunks: numbered(
                    file_chunks(
                        if local_kind_of(extension@) == Some(FileKind::Code) {
                            FileKind::Code
                        } else {
                            FileKind::Doc
                        },
                        content@,
                        self.size(),
                    ),
                ),
            }),
    {
        let mut documents: Vec<LoadedDocument> = Vec::new();
        let chars = to_chars(content);
        if is_blank(&chars) {
            return documents;
        }
        let kind = match Self::file_kind(extension) {
            Some(FileKind::Code) => FileKind::Code,
            _ => FileKind::Doc,
        };
        let chunks = chunk_as(&self.chunker, kind, content);
        documents.push(
            LoadedDocument {
                source: String::from_str(file_name),
                path: String::from_str(file_name),
                chunks,
            },
        );
        documents
    }
}

} // verus!
