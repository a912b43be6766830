//! A local AI-assistant engine: a tool-augmented chat loop, a
//! retrieval-augmented knowledge base over an embedded vector store, a
//! capability-gated plugin registry, and the pure decision logic of the
//! surrounding terminal front end.
//!
//! Everything in this crate is verified; the surrounding I/O (sockets,
//! files, subprocesses, the LLM backend itself) lives outside and talks
//! to this crate through plain values and the traits defined here. The
//! terminal multiplexer itself, the configuration CLI, the model-loader
//! backends, a protocol client for external tool servers, and the
//! model-catalog bookkeeping stay outside the crate: they are I/O-bound
//! shells around the engine.

pub mod chat;
pub mod chunker;
pub mod client;
pub mod config;
pub mod indexer;
pub mod input;
pub mod patterns;
pub mod plugin;
pub mod provider;
pub mod plugins;
pub mod rag;
pub mod search;
pub mod server;
pub mod store;
pub mod strutil;
