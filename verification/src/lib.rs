//! Searching evaluation-run archives for chat messages.
//!
//! An archive holds many small JSON sample records. This library names the
//! entries that are samples, decides which of them a search selects, decodes
//! a record while filtering its messages in place, and lays out what is to be
//! shown of the result.

pub mod role;
pub mod record;
pub mod json;
pub mod decode;
pub mod pattern;
pub mod text;
pub mod filter;
pub mod entry;
pub mod render;
pub mod search;
