//! Deduplicating batch pipeline for text-to-speech flashcard generation.
//!
//! Rows of tabular text (a sentence plus optional metadata columns) are
//! fingerprinted, deduplicated, grouped into one synthesis request per unique
//! sentence, and reassembled in source order with a reference to the audio
//! file derived from the sentence's fingerprint.

pub mod assemble;
pub mod errors;
pub mod fingerprint;
pub mod fpmap;
pub mod voice;
pub mod work;
