//! Files of a repository cloned from GitHub.

use crate::loaders::chunker::TextChunker;
use crate::loaders::document::{
    doc_extension, document_of, document_view, excluded_path, is_excluded, kind_of,
    language_extension, load_document, FileKind, LoadedDocument,
};
use std::path::PathBuf;
use vstd::prelude::*;
use vstd::string::StringExecFns;

verus! {

/// The name of the directory that holds the clone of a repository.
pub open spec fn clone_dir(owner: Seq<char>, repo: Seq<char>) -> Seq<char> {
    owner + "-"@ + repo
}

/// The address from which a repository is cloned.
pub open spec fn clone_url(owner: Seq<char>, repo: Seq<char>) -> Seq<char> {
    "https://github.com/"@ + owner + "/"@ + repo + ".git"@
}

/// Loads the files of repositories that are cloned below one directory.
pub struct GitHubLoader {
    repos_path: PathBuf,
    chunker: TextChunker,
}

impl GitHubLoader {
    /// The number of words that a chunk should hold.
    pub closed spec fn size(&self) -> nat {
        self.chunker.size()
    }

    /// The number of words that two neighbouring windows share.
    pub closed spec fn overlap(&self) -> nat {
        self.chunker.overlap()
    }

    /// The directory below which the clones are kept.
    pub closed spec fn root(&self) -> PathBuf {
        self.repos_path
    }

    /// A loader for clones kept below `repos_path`.
    pub fn new(repos_path: PathBuf, chunk_size: usize, chunk_overlap: usize) -> (loader: Self)
        ensures
            loader.root() == repos_path,
            loader.size() == chunk_size,
            loader.overlap() == chunk_overlap,
    {
        Self { repos_path, chunker: TextChunker::new(chunk_size, chunk_overlap) }
    }

    /// The directory below which the clones are kept.
    pub fn repos_path(&self) -> (path: &PathBuf)
        ensures
            *path == self.root(),
    {
        &self.repos_path
    }

    /// The name of the directory, below `repos_path`, that holds the clone
    /// of a repository.
    pub fn clone_dir_name(owner: &str, repo: &str) -> (name: String)
        ensures
            name@ == clone_dir(owner@, repo@),
    {
        let mut name = String::from_str(owner);
        name.append("-");
        name.append(repo);
        name
    }

    /// The address from which a repository is cloned.
    pub fn clone_address(owner: &str, repo: &str) -> (url: String)
        ensures
            url@ == clone_url(owner@, repo@),
    {
        let mut url = String::from_str("https://github.com/");
        url.append(owner);
        url.append("/");
        url.append(repo);
        url.append(".git");
        url
    }

    /// Whether a file with this path is passed over because of the
    /// directory it lies in.
    pub fn excluded(path: &str) -> (yes: bool)
        ensures
            yes == is_excluded(path@),
    {
        excluded_path(path)
    }

    /// How a file with this extension is cut, or `None` for a file that is
    /// passed over. The extension counts as it is written.
    pub fn file_kind(extension: &str) -> (kind: Option<FileKind>)
        ensures
            kind == kind_of(extension@),
    {
        if language_extension(extension) {
            Some(FileKind::Code)
        } else if doc_extension(extension) {
            Some(FileKind::Doc)
        } else {
            None
        }
    }

    /// The document of one file found in a clone: `source` is the name of
    /// the clone's directory, `path` the file's path below it.
    pub fn load_entry(&self, kind: FileKind, source: &str, path: &str, content: &str) -> (document:
        Option<LoadedDocument>)
        ensures
            document_view(document) == document_of(kind, source@, path@, content@, self.size()),
    {
        load_document(&self.chunker, kind, source, path, content)
    }
}

} // verus!
