//! An in-memory catalog of named agents and a per-agent index of uploaded
//! files with their embedding vectors.
//!
//! Every operation is stated over a mathematical model: the registry is a
//! finite map from identifiers to agent records, the embedding index a
//! sequence of entries in upload order.

pub mod agent;
pub mod error;
pub mod file_embedding;
pub mod history;
pub mod laws;
pub mod model;
pub mod registry;
pub mod time;

pub use agent::{Agent, AgentStatus};
pub use error::{Error, IoOperation};
pub use file_embedding::{FileEmbedding, FileEmbeddingService, StorageReport, EMBEDDING_DIMENSION};
pub use registry::AgentRegistry;
pub use time::Timestamp;
