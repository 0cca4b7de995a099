//! The high-pass filter: a single-pole filter that follows the change of
//! each channel's input.

use vstd::prelude::*;
use crate::effects::single_pole::{
    a_frame_before, coefficient, final_frame, is_time_constant, smooths, time_constant,
};
use crate::format::{AudioFormat, ReadResult};
use crate::sample::{differs, multiplies, silent, sums, Sample};
use crate::source::AudioSource;

verus! {

/// The steps of one high-pass sample:
/// `output = a * ((last + input) - before)`.
pub open spec fn follow_steps<T: Sample>(
    last: T,
    input: T,
    before: T,
    a: T,
    raised: T,
    change: T,
    output: T,
) -> bool {
    &&& sums(last, input, raised)
    &&& differs(raised, before, change)
    &&& multiplies(a, change, output)
}

/// `output` follows the change of a channel's input: the `last` output
/// plus the new `input` less the input `before` it, scaled by `a`.
pub open spec fn follows<T: Sample>(last: T, input: T, before: T, a: T, output: T) -> bool {
    exists|raised: T, change: T| #[trigger]
        follow_steps(last, input, before, a, raised, change, output)
}

/// `output` is `input` with its first `count` samples high-pass filtered,
/// each channel by itself.
///
/// Every filtered sample follows the change of the input from one frame
/// to the next, starting from the output one frame before; the first frame
/// takes the inputs and outputs before it from `seed_in` and `seed_out`,
/// the memory of the call before. The samples behind `count` are not
/// touched.
pub open spec fn high_passed<T: Sample>(
    input: Seq<T>,
    count: int,
    channels: int,
    a: T,
    seed_in: Seq<T>,
    seed_out: Seq<T>,
    output: Seq<T>,
) -> bool {
    &&& output.len() == input.len()
    &&& forall|i: int|
        0 <= i < count ==> follows(
            a_frame_before(output, seed_out, channels, i),
            input[i],
            a_frame_before(input, seed_in, channels, i),
            a,
            #[trigger] output[i],
        )
    &&& forall|i: int| count <= i < input.len() ==> #[trigger] output[i] == input[i]
}

/// A filter that lets nothing through is silent: where multiplying by
/// `a` gives silence, every filtered sample is silence.
pub proof fn lemma_zero_coefficient_is_silence<T: Sample>(
    input: Seq<T>,
    count: int,
    channels: int,
    a: T,
    seed_in: Seq<T>,
    seed_out: Seq<T>,
    output: Seq<T>,
)
    requires
        forall|change: T, scaled: T| #[trigger] multiplies(a, change, scaled) ==> silent(scaled),
        high_passed(input, count, channels, a, seed_in, seed_out, output),
    ensures
        forall|i: int| 0 <= i < count ==> silent(#[trigger] output[i]),
{
    assert forall|i: int| 0 <= i < count implies silent(#[trigger] output[i]) by {
        let last = a_frame_before(output, seed_out, channels, i);
        let before = a_frame_before(input, seed_in, channels, i);
        let (raised, change) = choose|raised: T, change: T| #[trigger]
            follow_steps(last, input[i], before, a, raised, change, output[i]);
        assert(multiplies(a, change, output[i]));
    }
}

/// A filter that lets everything through is the identity, if it starts
/// with equal memories of its input and its output: where multiplying by
/// `a` changes nothing, and a sample plus another less the first is the
/// other, the filtered samples are the input.
pub proof fn lemma_unit_coefficient_is_identity<T: Sample>(
    input: Seq<T>,
    count: int,
    channels: int,
    a: T,
    seed_in: Seq<T>,
    seed_out: Seq<T>,
    output: Seq<T>,
)
    requires
        forall|change: T, scaled: T| #[trigger] multiplies(a, change, scaled) ==> scaled == change,
        forall|last: T, sample: T, raised: T, change: T|
            #[trigger] sums(last, sample, raised) && #[trigger] differs(raised, last, change)
                ==> change == sample,
        0 < channels,
        seed_in == seed_out,
        high_passed(input, count, channels, a, seed_in, seed_out, output),
    ensures
        output == input,
{
    assert forall|i: int| 0 <= i < input.len() implies output[i] == input[i] by {
        if i < count {
            lemma_unit_coefficient_passes(input, count, channels, a, seed_in, output, i);
        }
    }
    assert(output =~= input);
}

/// The step of [`lemma_unit_coefficient_is_identity`] at one index, which
/// rests on the same step one frame before.
proof fn lemma_unit_coefficient_passes<T: Sample>(
    input: Seq<T>,
    count: int,
    channels: int,
    a: T,
    seed: Seq<T>,
    output: Seq<T>,
    i: int,
)
    requires
        forall|change: T, scaled: T| #[trigger] multiplies(a, change, scaled) ==> scaled == change,
        forall|last: T, sample: T, raised: T, change: T|
            #[trigger] sums(last, sample, raised) && #[trigger] differs(raised, last, change)
                ==> change == sample,
        0 < channels,
        high_passed(input, count, channels, a, seed, seed, output),
        0 <= i < count,
    ensures
        output[i] == input[i],
    decreases i,
{
    if i >= channels {
        lemma_unit_coefficient_passes(input, count, channels, a, seed, output, i - channels);
    }
    let last = a_frame_before(output, seed, channels, i);
    let before = a_frame_before(input, seed, channels, i);
    assert(last == before);
    let (raised, change) = choose|raised: T, change: T| #[trigger]
        follow_steps(last, input[i], before, a, raised, change, output[i]);
    assert(sums(last, input[i], raised) && differs(raised, last, change));
    assert(multiplies(a, change, output[i]));
}

/// Filters the first `count` samples of `samples` in place, as
/// [`high_passed`] says, for a stream of `channels` channels, and keeps
/// the final frame of the input in `prev` and of the output in `last`.
fn filter_frames<T: Sample>(
    samples: &mut [T],
    count: usize,
    channels: usize,
    a: T,
    prev: &mut [T; 2],
    last: &mut [T; 2],
)
    requires
        1 <= channels <= 2,
        count <= old(samples)@.len(),
        count % channels == 0,
    ensures
        high_passed(
            old(samples)@,
            count as int,
            channels as int,
            a,
            old(prev)@,
            old(last)@,
            final(samples)@,
        ),
        final(prev)@ == final_frame(old(samples)@, old(prev)@, channels as int, count as int),
        final(last)@ == final_frame(final(samples)@, old(last)@, channels as int, count as int),
{
    let mut i: usize = 0;
    while i < count
        invariant
            1 <= channels <= 2,
            count <= samples.len(),
            samples@.len() == old(samples)@.len(),
            count % channels == 0,
            i % channels == 0,
            i <= count,
            forall|j: int|
                0 <= j < i ==> follows(
                    a_frame_before(samples@, old(last)@, channels as int, j),
                    old(samples)@[j],
                    a_frame_before(old(samples)@, old(prev)@, channels as int, j),
                    a,
                    #[trigger] samples@[j],
                ),
            forall|j: int| i <= j < samples@.len() ==> #[trigger] samples@[j] == old(samples)@[j],
            prev@ == final_frame(old(samples)@, old(prev)@, channels as int, i as int),
            last@ == final_frame(samples@, old(last)@, channels as int, i as int),
        decreases count - i,
    {
        let ghost entry = samples@;
        let ghost entry_prev = prev@;
        let ghost entry_last = last@;
        assert(i + channels <= count && (i + channels) % (channels as int) == 0)
            by (nonlinear_arith)
            requires
                i < count,
                i % channels == 0,
                count % channels == 0,
                channels >= 1,
        ;
        let mut c: usize = 0;
        while c < channels
            invariant
                1 <= channels <= 2,
                c <= channels,
                i + channels <= count,
                count <= samples.len(),
                samples@.len() == entry.len(),
                entry.len() == old(samples)@.len(),
                entry_prev.len() == 2,
                entry_last.len() == 2,
                forall|j: int| 0 <= j < i ==> #[trigger] samples@[j] == entry[j],
                forall|j: int| i + c <= j < samples@.len() ==> #[trigger] samples@[j] == entry[j],
                forall|j: int| i <= j < entry.len() ==> #[trigger] entry[j] == old(samples)@[j],
                forall|d: int| c <= d < 2 ==> #[trigger] prev@[d] == entry_prev[d],
                forall|d: int| c <= d < 2 ==> #[trigger] last@[d] == entry_last[d],
                forall|d: int| 0 <= d < c ==> #[trigger] prev@[d] == old(samples)@[i + d],
                forall|d: int| 0 <= d < c ==> #[trigger] last@[d] == samples@[i + d],
                forall|d: int|
                    0 <= d < c ==> follows(
                        entry_last[d],
                        old(samples)@[i + d],
                        entry_prev[d],
                        a,
                        #[trigger] samples@[i + d],
                    ),
            decreases channels - c,
        {
            let before = prev[c];
            let held = last[c];
            let input = samples[i + c];
            let raised = held.sum(input);
            let change = raised.difference(before);
            let output = a.product(change);
            assert(follow_steps(held, input, before, a, raised, change, output));
            samples[i + c] = output;
            prev[c] = input;
            last[c] = output;
            c += 1;
        }
        proof {
            assert forall|j: int| 0 <= j < i + channels implies follows(
                a_frame_before(samples@, old(last)@, channels as int, j),
                old(samples)@[j],
                a_frame_before(old(samples)@, old(prev)@, channels as int, j),
                a,
                #[trigger] samples@[j],
            ) by {
                if j < i {
                    assert(samples@[j] == entry[j]);
                    if j >= channels {
                        assert(samples@[j - channels] == entry[j - channels]);
                    }
                } else {
                    let d = j - i;
                    assert(samples@[i + d] == samples@[j]);
                    if i >= channels {
                        assert(entry_last[d] == entry[i - channels + d]);
                        assert(samples@[j - channels] == entry[j - channels]);
                    } else {
                        assert(i == 0);
                    }
                }
            }
            assert(prev@ =~= final_frame(
                old(samples)@,
                old(prev)@,
                channels as int,
                i + channels,
            ));
            assert(last@ =~= final_frame(samples@, old(last)@, channels as int, i + channels));
        }
        i += channels;
    }
}

/// High-pass filters the first `count` samples of a mono stream in place.
pub fn filter_mono<T: Sample>(
    samples: &mut [T],
    count: usize,
    a: T,
    prev: &mut [T; 2],
    last: &mut [T; 2],
)
    requires
        count <= old(samples)@.len(),
    ensures
        high_passed(old(samples)@, count as int, 1, a, old(prev)@, old(last)@, final(samples)@),
        final(prev)@ == final_frame(old(samples)@, old(prev)@, 1, count as int),
        final(last)@ == final_frame(final(samples)@, old(last)@, 1, count as int),
{
    filter_frames(samples, count, 1, a, prev, last)
}

/// High-pass filters the first `count` samples of a stereo stream in
/// place, the left and the right channel each by itself.
pub fn filter_stereo<T: Sample>(
    samples: &mut [T],
    count: usize,
    a: T,
    prev: &mut [T; 2],
    last: &mut [T; 2],
)
    requires
        count <= old(samples)@.len(),
        count % 2 == 0,
    ensures
        high_passed(old(samples)@, count as int, 2, a, old(prev)@, old(last)@, final(samples)@),
        final(prev)@ == final_frame(old(samples)@, old(prev)@, 2, count as int),
        final(last)@ == final_frame(final(samples)@, old(last)@, 2, count as int),
{
    filter_frames(samples, count, 2, a, prev, last)
}

/// An effect that suppresses low frequencies.
///
/// `HighPass` reduces the volume of frequencies below the given cutoff.
/// This can create the impression of sound played on old speakers or a
/// radio.
///
/// The filter works on the samples where they lie, and remembers the last
/// frame that it took in and the last that it put out, so that it goes on
/// smoothly from one read to the next.
pub struct HighPass<T, S> {
    rc: T,
    source: S,
    prev: [T; 2],
    last: [T; 2],
}

impl<T: Sample, S: AudioSource<T>> HighPass<T, S> {
    /// The source of audio for this effect.
    pub closed spec fn source(&self) -> S {
        self.source
    }

    /// The time constant of the filter.
    pub closed spec fn rc(&self) -> T {
        self.rc
    }

    /// The last input of each channel.
    pub closed spec fn prev(&self) -> Seq<T> {
        self.prev@
    }

    /// The last output of each channel.
    pub closed spec fn last(&self) -> Seq<T> {
        self.last@
    }

    /// Construct a high-pass filter.
    ///
    /// # Arguments
    ///
    /// * `source` -- The source of audio for this effect, with one or two
    ///   channels.
    /// * `cutoff` -- The frequency below which volume will be reduced.
    pub fn new(source: S, cutoff: T) -> (filter: Self)
        requires
            source.valid(),
            source.spec_format() matches Some(f) && 1 <= f.channels <= 2,
        ensures
            filter.valid(),
            filter.source() == source,
            is_time_constant(cutoff, filter.rc()),
            filter.prev().len() == 2,
            filter.last().len() == 2,
            forall|c: int| 0 <= c < 2 ==> silent(#[trigger] filter.prev()[c]),
            forall|c: int| 0 <= c < 2 ==> silent(#[trigger] filter.last()[c]),
    {
        let rc = time_constant(cutoff);
        HighPass {
            rc,
            source,
            prev: [T::silence(), T::silence()],
            last: [T::silence(), T::silence()],
        }
    }

    /// A read that takes the filter from `self` to `after`, with what the
    /// source put into the buffer, `dry`, and the coefficient `a`.
    pub open spec fn filters(
        &self,
        after: &Self,
        before: Seq<T>,
        dry: Seq<T>,
        a: T,
        filled: Seq<T>,
        result: ReadResult,
    ) -> bool {
        &&& self.spec_format() is Some
        &&& self.source().pulls(&after.source(), before, dry, result)
        &&& after.rc() == self.rc()
        &&& if result.read == 0 {
            filled == dry && after.prev() == self.prev() && after.last() == self.last()
        } else {
            let format = self.spec_format()->0;
            &&& smooths(self.rc(), format.sample_rate, a)
            &&& high_passed(
                dry,
                result.read as int,
                format.channels as int,
                a,
                self.prev(),
                self.last(),
                filled,
            )
            &&& after.prev() == final_frame(
                dry,
                self.prev(),
                format.channels as int,
                result.read as int,
            )
            &&& after.last() == final_frame(
                filled,
                self.last(),
                format.channels as int,
                result.read as int,
            )
        }
    }
}

impl<T: Sample, S: AudioSource<T>> AudioSource<T> for HighPass<T, S> {
    closed spec fn valid(&self) -> bool {
        &&& self.source.valid()
        &&& self.source.spec_format() matches Some(f) && 1 <= f.channels <= 2
    }

    open spec fn spec_format(&self) -> Option<AudioFormat> {
        self.source().spec_format()
    }

    /// The source is read into the buffer. If it gave any samples, they
    /// are high-pass filtered where they lie, with the coefficient that
    /// the time constant and the sample rate give; the filter remembers
    /// the last frame of the input and of the output. The result is the
    /// source's.
    open spec fn pulls(
        &self,
        after: &Self,
        before: Seq<T>,
        filled: Seq<T>,
        result: ReadResult,
    ) -> bool {
        exists|dry: Seq<T>, a: T| #[trigger]
            self.filters(after, before, dry, a, filled, result)
    }

    fn format(&self) -> (f: AudioFormat) {
        self.source.format()
    }

    fn read(&mut self, buffer: &mut [T]) -> (result: ReadResult) {
        let format = self.source.format();
        let result = self.source.read(buffer);
        let written = result.read;
        let ghost dry = buffer@;
        if written == 0 {
            assert(old(self).filters(self, old(buffer)@, dry, self.rc, buffer@, result));
            return result;
        }
        let a = coefficient(self.rc, format.sample_rate);
        if format.channels == 1 {
            filter_mono(buffer, written, a, &mut self.prev, &mut self.last);
        } else {
            filter_stereo(buffer, written, a, &mut self.prev, &mut self.last);
        }
        assert(old(self).filters(self, old(buffer)@, dry, a, buffer@, result));
        result
    }
}

} // verus!
