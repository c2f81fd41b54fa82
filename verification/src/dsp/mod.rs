pub mod mastering;
pub mod pcm;
pub mod resampler;

pub use resampler::AudioResampler;
