//! Batch enrichment for browser bookmark export files.
//!
//! The library holds the verified logic of the tool: title normalization,
//! URL validation, parsing and generation of the bookmark export markup,
//! the language-model reply protocol with its retry policy, and the batch
//! orchestration rules.  Network and file I/O live outside the library.

pub mod enrich;
pub mod generate;
pub mod markup;
pub mod model;
pub mod numbers;
pub mod orchestrate;
pub mod text;
pub mod weburl;
