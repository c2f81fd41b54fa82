//! The logic of a text-to-speech daemon that speaks a coding assistant's replies as they stream.
pub mod audio;
pub mod config;
pub mod dsp;
pub mod engine;
pub mod ipc;
pub mod text;
