//! Effects: sources that transform the stream of another source.
//!
//! Each module holds the effect, the functions that do its work on a
//! buffer, and what is proved of them.

pub mod basic_mixer;
pub mod echo;
pub mod high_pass;
pub mod low_pass;
pub mod single_pole;

pub use basic_mixer::{
    accumulate, accumulated, mix_result, result_of, scale, scaled, silence_tail, silenced_after,
    BasicMixer, BasicMixerSource,
};
pub use echo::{delayed, echo, echoed, Echo};
pub use high_pass::{high_passed, HighPass};
pub use low_pass::{low_passed, LowPass};
pub use single_pole::{coefficient, time_constant};
