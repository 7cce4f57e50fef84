//! Streaming censorship of spoken words in mono 16-bit PCM audio.
//!
//! The crate holds the pure core of the pipeline: chunked delivery of samples
//! with an overlap, the bookkeeping around a streaming recognizer, the search
//! for listed words in a transcript and its mapping to sample ranges, the
//! merging of those ranges into a plan, and the overlay of a tone on the
//! planned ranges.

pub mod audio;
pub mod capture;
pub mod overlay;
pub mod pipeline;
pub mod ranges;
pub mod reader;
pub mod recognition;
pub mod search;
pub mod timeline;
pub mod wordlist;
