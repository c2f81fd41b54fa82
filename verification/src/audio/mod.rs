pub mod queue;
pub mod sink;

pub use queue::ChunkQueue;
pub use sink::{AudioChunk, AudioSink};
