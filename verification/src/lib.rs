//! A local large-language-model inference and retrieval engine.
//!
//! The crate orchestrates autoregressive token generation with inline
//! detection of structured tool calls in the model's output stream, and an
//! embedding-based retrieval subsystem: a content-addressed embedding cache
//! and a cosine-similarity ranker over text segments.

pub mod cache;
pub mod engine;
pub mod errors;
pub mod functions;
pub mod jsonext;
pub mod provider;
pub mod ranker;
pub mod strutil;
