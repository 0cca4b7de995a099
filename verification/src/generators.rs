//! Sources that synthesize their samples.

pub mod tone;

pub use tone::SinWave;
