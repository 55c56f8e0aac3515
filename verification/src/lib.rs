//! Conversion between an audio file's embedded metadata tags and a
//! plain-text JSON sidecar document, with a batch directory-traversal mode.
//!
//! The library holds the data model and the decision logic: mapping a tag
//! set to a flat key/value document and back, pulling out or embedding the
//! first album-art picture, deriving sidecar and art paths from an audio
//! path, and the batch traversal state machine. Reading and writing actual
//! files is left to the surrounding application.

pub mod batch;
pub mod errors;
pub mod jsontext;
pub mod laws;
pub mod paths;
pub mod sidecar;
pub mod single;
pub mod tags;
