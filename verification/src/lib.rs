pub mod config;
pub mod ingest;
pub mod loaders;
pub mod scheduler;
pub mod storage;
pub mod system;
pub mod text;
