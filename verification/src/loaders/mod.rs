pub mod chunker;
pub mod document;
pub mod github;
pub mod local;

pub use chunker::TextChunker;
pub use github::GitHubLoader;
pub use local::LocalLoader;
