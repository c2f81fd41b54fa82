pub mod chars;
pub mod chunker;
pub mod decimal;
pub mod emphasis;
pub mod filter;
pub mod pattern;
pub mod scrub;
pub mod utf8;

pub use chunker::SentenceChunker;
pub use filter::TextSanitizer;
