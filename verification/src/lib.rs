//! A personal retrieval-augmented assistant: the decision core.
//!
//! The library holds the rules of the assistant as verified functions from plain
//! values to plain values: text normalisation and chunk identifiers, the vector
//! index and its ranking, snippet extraction, the credential cache, the framing of
//! streamed completions, and the step functions that drive the portal session.
//! Everything that touches a browser, the network, the file system or floating
//! point arithmetic is left to the program around it.

pub mod config;
pub mod error;
pub mod llm;
pub mod ops;
pub mod query;
pub mod rag;
pub mod text;
pub mod tui;
pub mod scrapper;
