pub mod archive;
pub mod kokoro;
pub mod phonemizer;
pub mod vocab;
pub mod voice_loader;

pub use kokoro::KokoroEngine;
pub use phonemizer::Phonemizer;
pub use voice_loader::VoiceDatabase;
