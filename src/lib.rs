//! Verified core of a retrieval-augmented search backend: text chunking,
//! snippet selection, the embedding index's row format, the search
//! session's summary gate, and the tab-separated message framing.
pub mod ranking;
pub mod scoring;
pub mod snippet;
pub mod session;
pub mod text;
pub mod messages;
pub mod index;
pub mod prompts;
pub mod embedding;
pub mod client;
