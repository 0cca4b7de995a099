//! The format of a stream and the result of a read.

use vstd::prelude::*;

verus! {

/// Used to know how to interpret audio data.
#[derive(Copy, Clone, Debug, PartialEq, Eq, Structural, Hash)]
pub struct AudioFormat {
    pub channels: u8,
    pub sample_rate: u32,
}

impl AudioFormat {
    /// Single-channel (mono) audio with CD quality sample rate (44.1 kHz).
    pub fn mono_cd() -> (f: AudioFormat)
        ensures
            f == (AudioFormat { channels: 1, sample_rate: 44100 }),
    {
        AudioFormat { channels: 1, sample_rate: 44100 }
    }

    /// Single-channel (mono) audio with DVD quality sample rate (48 kHz).
    pub fn mono_dvd() -> (f: AudioFormat)
        ensures
            f == (AudioFormat { channels: 1, sample_rate: 48000 }),
    {
        AudioFormat { channels: 1, sample_rate: 48000 }
    }

    /// Two-channel (stereo) audio with CD quality sample rate (44.1 kHz).
    pub fn stereo_cd() -> (f: AudioFormat)
        ensures
            f == (AudioFormat { channels: 2, sample_rate: 44100 }),
    {
        AudioFormat { channels: 2, sample_rate: 44100 }
    }

    /// Two-channel (stereo) audio with DVD quality sample rate (48 kHz).
    pub fn stereo_dvd() -> (f: AudioFormat)
        ensures
            f == (AudioFormat { channels: 2, sample_rate: 48000 }),
    {
        AudioFormat { channels: 2, sample_rate: 48000 }
    }

    /// The sample rate that a device reports as the signed frequency
    /// `freq`: the unsigned number with the same 32 bits.
    pub open spec fn rate_of(freq: i32) -> u32 {
        if freq >= 0 {
            freq as u32
        } else {
            (freq + 0x1_0000_0000) as u32
        }
    }

    /// The signed frequency to ask a device for: the signed number with
    /// the 32 bits of the sample rate.
    pub open spec fn spec_freq(self) -> i32 {
        if self.sample_rate <= i32::MAX {
            self.sample_rate as i32
        } else {
            (self.sample_rate - 0x1_0000_0000) as i32
        }
    }

    /// The format of a device that reports `channels` channels and the
    /// frequency `freq`.
    pub fn from_spec(channels: u8, freq: i32) -> (f: AudioFormat)
        ensures
            f == (AudioFormat { channels, sample_rate: Self::rate_of(freq) }),
    {
        let wide: i64 = if freq >= 0 {
            freq as i64
        } else {
            freq as i64 + 0x1_0000_0000
        };
        AudioFormat { channels, sample_rate: wide as u32 }
    }

    /// The frequency to ask a device for, to get this sample rate.
    pub fn freq(&self) -> (freq: i32)
        ensures
            freq == self.spec_freq(),
            Self::rate_of(freq) == self.sample_rate,
    {
        let wide: i64 = if self.sample_rate <= 0x7fff_ffff {
            self.sample_rate as i64
        } else {
            self.sample_rate as i64 - 0x1_0000_0000
        };
        wide as i32
    }

    /// Whether a buffer of `len` samples holds whole frames of this format.
    pub open spec fn whole_frames(self, len: int) -> bool {
        self.channels > 0 && len % (self.channels as int) == 0
    }
}

impl Default for AudioFormat {
    /// The default format: stereo at 44.1 kHz.
    fn default() -> (f: Self)
        ensures
            f == (AudioFormat { channels: 2, sample_rate: 44100 }),
    {
        AudioFormat { channels: 2, sample_rate: 44100 }
    }
}

/// Indicates the state of an audio source after a read.
#[derive(Debug, PartialEq, Eq, Structural)]
pub enum StreamState {
    /// The source had sufficient data to fill the buffer.
    Good,
    /// The source had insufficient data to fill the buffer, but more may come later.
    Underrun,
    /// The source has no more data and doesn't expect more.
    Finished,
}

/// Indicates the amount of data read and the status of an audio source.
#[derive(Debug, PartialEq, Eq, Structural)]
pub struct ReadResult {
    pub state: StreamState,
    pub read: usize,
}

impl ReadResult {
    pub fn good(read: usize) -> (r: Self)
        ensures
            r == (ReadResult { state: StreamState::Good, read }),
    {
        ReadResult { state: StreamState::Good, read }
    }

    pub fn underrun(read: usize) -> (r: Self)
        ensures
            r == (ReadResult { state: StreamState::Underrun, read }),
    {
        ReadResult { state: StreamState::Underrun, read }
    }

    pub fn finished(read: usize) -> (r: Self)
        ensures
            r == (ReadResult { state: StreamState::Finished, read }),
    {
        ReadResult { state: StreamState::Finished, read }
    }

    /// What every read of `len` samples owes its caller: the count stays
    /// within the buffer, and `Good` means the buffer was filled.
    pub open spec fn fits(self, len: int) -> bool {
        &&& self.read <= len
        &&& self.state == StreamState::Good ==> self.read == len
    }
}

/// Whole frames add up to, and differ by, whole frames.
pub proof fn lemma_whole_frames_add_up(channels: int, a: int, b: int)
    requires
        channels > 0,
        a % channels == 0,
        b % channels == 0,
    ensures
        (a + b) % channels == 0,
        (a - b) % channels == 0,
{
    vstd::arithmetic::div_mod::lemma_fundamental_div_mod(a, channels);
    vstd::arithmetic::div_mod::lemma_fundamental_div_mod(b, channels);
    let frames_a = a / channels;
    let frames_b = b / channels;
    assert(a + b == (frames_a + frames_b) * channels && a - b == (frames_a - frames_b) * channels)
        by (nonlinear_arith)
        requires
            a == channels * frames_a,
            b == channels * frames_b,
    ;
    vstd::arithmetic::div_mod::lemma_mod_multiples_basic(frames_a + frames_b, channels);
    vstd::arithmetic::div_mod::lemma_mod_multiples_basic(frames_a - frames_b, channels);
}

} // verus!
