//! A sine wave.

use vstd::prelude::*;
use crate::format::{AudioFormat, ReadResult, StreamState};
use crate::sample::{divides, is_from_int, is_pi, is_sine, multiplies, silent, sums, Sample};
use crate::source::AudioSource;

verus! {

/// The steps from a frequency to the phase that goes by in one frame:
/// `((pi * 2) * frequency) / rate`.
pub open spec fn increment_steps<T: Sample>(
    frequency: T,
    rate: u32,
    pi: T,
    two: T,
    turn: T,
    angular: T,
    per_second: T,
    increment: T,
) -> bool {
    &&& is_pi(pi)
    &&& is_from_int(2, two)
    &&& multiplies(pi, two, turn)
    &&& multiplies(turn, frequency, angular)
    &&& is_from_int(rate as i64, per_second)
    &&& divides(angular, per_second, increment)
}

/// `increment` is the phase, in radians, that a wave of `frequency` Hz
/// goes through in one frame at `rate` frames per second.
pub open spec fn is_increment<T: Sample>(frequency: T, rate: u32, increment: T) -> bool {
    exists|pi: T, two: T, turn: T, angular: T, per_second: T| #[trigger]
        increment_steps(frequency, rate, pi, two, turn, angular, per_second, increment)
}

/// The steps of one sample of the wave: `amplitude * sin(phase)`.
pub open spec fn voice_steps<T: Sample>(amplitude: T, phase: T, sine: T, sample: T) -> bool {
    &&& is_sine(phase, sine)
    &&& multiplies(amplitude, sine, sample)
}

/// `sample` is the wave of the given amplitude at `phase`.
pub open spec fn voiced<T: Sample>(amplitude: T, phase: T, sample: T) -> bool {
    exists|sine: T| #[trigger] voice_steps(amplitude, phase, sine, sample)
}

/// A source that plays a sine wave without end.
pub struct SinWave<T> {
    format: AudioFormat,
    amplitude: T,
    phase: T,
    frequency: T,
}

impl<T: Sample> SinWave<T> {
    /// The height of the wave.
    pub closed spec fn amplitude(&self) -> T {
        self.amplitude
    }

    /// The phase of the next frame, in radians.
    pub closed spec fn phase(&self) -> T {
        self.phase
    }

    /// The frequency of the wave, in Hz.
    pub closed spec fn frequency(&self) -> T {
        self.frequency
    }

    /// Construct a sine wave of the given amplitude and frequency, which
    /// starts at phase zero.
    pub fn new(format: AudioFormat, amplitude: T, frequency: T) -> (wave: Self)
        ensures
            wave.valid(),
            wave.spec_format() == Some(format),
            wave.amplitude() == amplitude,
            wave.frequency() == frequency,
            silent(wave.phase()),
    {
        SinWave { format, amplitude, phase: T::silence(), frequency }
    }

    /// A read of `filled.len()` samples that takes the wave from `self` to
    /// `after`, frame `i` being played at the phase `phases[i]`.
    pub open spec fn plays(
        &self,
        after: &Self,
        increment: T,
        phases: Seq<T>,
        filled: Seq<T>,
        result: ReadResult,
    ) -> bool {
        let format = self.spec_format()->0;
        let channels = format.channels as int;
        let frames = filled.len() / (channels as nat);
        &&& self.spec_format() is Some
        &&& after.amplitude() == self.amplitude()
        &&& after.frequency() == self.frequency()
        &&& is_increment(self.frequency(), format.sample_rate, increment)
        &&& phases.len() == frames + 1
        &&& phases[0] == self.phase()
        &&& after.phase() == phases[frames as int]
        &&& forall|i: int| 0 <= i < frames ==> sums(phases[i], increment, #[trigger] phases[i + 1])
        &&& forall|i: int|
            0 <= i < frames ==> voiced(self.amplitude(), phases[i], #[trigger] filled[i * channels])
        &&& forall|i: int, c: int|
            0 <= i < frames && 0 <= c < channels ==> #[trigger] filled[i * channels + c]
                == filled[i * channels]
        &&& result == ReadResult { state: StreamState::Good, read: filled.len() as usize }
    }
}

impl<T: Sample> AudioSource<T> for SinWave<T> {
    closed spec fn spec_format(&self) -> Option<AudioFormat> {
        Some(self.format)
    }

    /// The whole buffer is filled, frame by frame: every channel of a
    /// frame gets the wave at the phase of the frame, and the phase moves
    /// on by one increment from frame to frame.
    open spec fn pulls(
        &self,
        after: &Self,
        before: Seq<T>,
        filled: Seq<T>,
        result: ReadResult,
    ) -> bool {
        &&& filled.len() == before.len()
        &&& exists|increment: T, phases: Seq<T>| #[trigger]
            self.plays(after, increment, phases, filled, result)
    }

    fn format(&self) -> (f: AudioFormat) {
        self.format
    }

    fn read(&mut self, buffer: &mut [T]) -> (result: ReadResult) {
        let pi = T::pi();
        let two = T::from_int(2);
        let turn = pi.product(two);
        let angular = turn.product(self.frequency);
        let per_second = T::from_int(self.format.sample_rate as i64);
        let increment = angular.quotient(per_second);
        assert(increment_steps(
            self.frequency,
            self.format.sample_rate,
            pi,
            two,
            turn,
            angular,
            per_second,
            increment,
        ));
        let channels = self.format.channels as usize;
        let frames = buffer.len() / channels;
        let ghost mut phases = seq![self.phase];
        let mut i: usize = 0;
        while i < frames
            invariant
                channels == self.format.channels,
                channels > 0,
                frames == buffer.len() / channels,
                buffer@.len() == old(buffer)@.len(),
                buffer.len() % channels == 0,
                i <= frames,
                self.format == old(self).format,
                self.amplitude == old(self).amplitude,
                self.frequency == old(self).frequency,
                phases.len() == i + 1,
                phases[0] == old(self).phase,
                phases[i as int] == self.phase,
                forall|k: int| 0 <= k < i ==> sums(phases[k], increment, #[trigger] phases[k + 1]),
                forall|k: int|
                    0 <= k < i ==> voiced(
                        self.amplitude,
                        phases[k],
                        #[trigger] buffer@[k * channels],
                    ),
                forall|k: int, c: int|
                    0 <= k < i && 0 <= c < channels ==> #[trigger] buffer@[k * channels + c]
                        == buffer@[k * channels],
            decreases frames - i,
        {
            let sine = self.phase.sine();
            let amplitude = self.amplitude.product(sine);
            assert(voice_steps(self.amplitude, self.phase, sine, amplitude));
            assert(i * channels + channels == (i + 1) * channels && (i + 1) * channels
                <= buffer.len()) by (nonlinear_arith)
                requires
                    i < frames,
                    frames == buffer.len() / channels,
                    channels > 0,
            ;
            let ghost entry = buffer@;
            let base = i * channels;
            let mut channel: usize = 0;
            while channel < channels
                invariant
                    channel <= channels,
                    base == i * channels,
                    base + channels <= buffer.len(),
                    buffer@.len() == entry.len(),
                    forall|j: int| 0 <= j < base ==> #[trigger] buffer@[j] == entry[j],
                    forall|c: int| 0 <= c < channel ==> #[trigger] buffer@[base + c] == amplitude,
                decreases channels - channel,
            {
                buffer[base + channel] = amplitude;
                channel += 1;
            }
            self.phase = self.phase.sum(increment);
            proof {
                phases = phases.push(self.phase);
                assert forall|k: int, c: int| 0 <= k < i + 1 && 0 <= c < channels implies (
                #[trigger] buffer@[k * channels + c]) == buffer@[k * channels] by {
                    if k < i {
                        assert(k * channels + c < base && k * channels < base) by (nonlinear_arith)
                            requires
                                0 <= k < i,
                                0 <= c < channels,
                                base == i * channels,
                        ;
                        assert(buffer@[k * channels + c] == entry[k * channels + c]);
                        assert(buffer@[k * channels] == entry[k * channels]);
                    } else {
                        assert(buffer@[base + c] == amplitude);
                        assert(buffer@[base + 0] == amplitude);
                    }
                }
                assert forall|k: int| 0 <= k < i + 1 implies voiced(
                    self.amplitude,
                    phases[k],
                    #[trigger] buffer@[k * channels],
                ) by {
                    if k < i {
                        assert(k * channels < base) by (nonlinear_arith)
                            requires
                                0 <= k < i,
                                0 < channels,
                                base == i * channels,
                        ;
                        assert(buffer@[k * channels] == entry[k * channels]);
                    } else {
                        assert(buffer@[base + 0] == amplitude);
                    }
                }
            }
            i += 1;
        }
        let result = ReadResult::good(buffer.len());
        assert(old(self).plays(self, increment, phases, buffer@, result));
        result
    }
}

} // verus!
