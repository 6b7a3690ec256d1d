//! The settings that the library reads.

use crate::loaders::chunker::TextChunker;
use crate::scheduler::{github_source, github_source_name};
use vstd::prelude::*;

verus! {

/// How documents are cut.
#[derive(Debug, Clone)]
pub struct BrainConfig {
    pub name: String,
    pub chunk_size: usize,
    pub chunk_overlap: usize,
}

/// A repository that is indexed without being asked for.
#[derive(Debug, Clone)]
pub struct DefaultSource {
    pub owner: String,
    pub repo: String,
    pub branch: String,
}

impl BrainConfig {
    /// The chunker that these settings ask for.
    pub fn chunker(&self) -> (chunker: TextChunker)
        ensures
            chunker.size() == self.chunk_size,
            chunker.overlap() == self.chunk_overlap,
    {
        TextChunker::new(self.chunk_size, self.chunk_overlap)
    }
}

impl DefaultSource {
    /// The name under which the repository is indexed.
    pub fn source_name(&self) -> (name: String)
        ensures
            name@ == github_source(self.owner@, self.repo@),
    {
        github_source_name(self.owner.as_str(), self.repo.as_str())
    }
}

} // verus!
