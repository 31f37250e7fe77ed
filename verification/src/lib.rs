//! Byte patching against a fixed frame of reference.
//!
//! A patch document names one base source and an ordered list of edits.
//! Every edit addresses the original, unmodified base by byte offset; the
//! engine keeps a live mapping from original offsets to current buffer
//! positions while the buffer shrinks and grows under the edits.

pub mod engine;
pub mod errors;
pub mod models;
pub mod parse;
