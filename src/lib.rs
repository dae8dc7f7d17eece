//! Translation of time-coded subtitle documents: entries are grouped into
//! chunks, each chunk is sent with the whole document as context to a
//! translation service, and the answers are merged back with the
//! entries' identifiers and time ranges, in source order.
use vstd::prelude::*;

pub mod text;
pub mod text_splitter;
pub mod subtitle_combiner;
pub mod formatter;
pub mod translator;
pub mod subtitle_extractor;
pub mod handler;
pub mod utils;
pub mod prompts;
pub mod config;

verus! {

/// Default number of entries per chunk.
pub const GROUP_SIZE: usize = 20;

/// Separates the entries of a chunk.
pub const DELIMITER: &'static str = "<T>";

/// Stands for a line break inside an entry's text.
pub const NEWLINE_MARK: &'static str = "<nl>";

} // verus!
