//! [`AudioSource`](crate::AudioSource) implementations that read common audio codecs.

pub mod wav_decoder;

pub use wav_decoder::{convert_samples, converts, SampleEncoding, WavDecoder};
