//! Core logic of the Jarvis desktop assistant: provider selection, agent
//! rebuild signatures, the permission gate's decision rules, chat history
//! normalisation, RAG bookkeeping and sandbox root synchronisation.

pub mod errors;
pub mod text;
pub mod utf8len;
pub mod providers;
pub mod permission;
pub mod permission_laws;
pub mod history;
pub mod history_laws;
pub mod strvec;
pub mod lexorder;
pub mod config;
pub mod signature;
pub mod compaction;
pub mod session_store;
pub mod stream;
pub mod hardware;
pub mod size_format;
pub mod rag;
pub mod indexing;
pub mod sandbox;
pub mod search;
pub mod documents;
pub mod agent_plan;
