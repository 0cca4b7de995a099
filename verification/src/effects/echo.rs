//! The echo: a delay line with feedback.

use vstd::prelude::*;
use crate::format::{AudioFormat, ReadResult};
use crate::sample::{is_count, is_from_int, multiplies, silent, sums, Sample};
use crate::source::AudioSource;

verus! {

/// The steps of one echoed sample: `output = held * decay + input`.
pub open spec fn feed_steps<T: Sample>(held: T, decay: T, input: T, faded: T, output: T) -> bool {
    &&& multiplies(held, decay, faded)
    &&& sums(faded, input, output)
}

/// `output` is what the delay line `held` one delay ago, faded by
/// `decay`, plus the new `input`.
pub open spec fn feeds<T: Sample>(held: T, decay: T, input: T, output: T) -> bool {
    exists|faded: T| #[trigger] feed_steps(held, decay, input, faded, output)
}

/// The delay line `line` after the first `count` samples of `wet` have
/// been stored in it, one slot after the other from `position` on, going
/// round.
pub open spec fn delayed<T>(line: Seq<T>, position: int, wet: Seq<T>, count: int) -> Seq<T>
    decreases count,
{
    if count <= 0 {
        line
    } else {
        delayed(line, position, wet, count - 1).update(
            (position + count - 1) % (line.len() as int),
            wet[count - 1],
        )
    }
}

/// `output` is `input` with the echo of the delay line mixed into its
/// first `count` samples.
///
/// Each of those samples takes the slot of the delay line that is its
/// turn, as the samples before it left it, fades it by `decay` and adds
/// the input. The samples behind `count` are not touched.
pub open spec fn echoed<T: Sample>(
    line: Seq<T>,
    position: int,
    decay: T,
    input: Seq<T>,
    count: int,
    output: Seq<T>,
) -> bool {
    &&& output.len() == input.len()
    &&& forall|i: int|
        0 <= i < count ==> feeds(
            delayed(line, position, output, i)[(position + i) % (line.len() as int)],
            decay,
            input[i],
            #[trigger] output[i],
        )
    &&& forall|i: int| count <= i < input.len() ==> #[trigger] output[i] == input[i]
}

/// The delay line after `count` samples depends on those samples alone.
pub proof fn lemma_delayed_prefix<T>(
    line: Seq<T>,
    position: int,
    wet: Seq<T>,
    other: Seq<T>,
    count: int,
)
    requires
        forall|k: int| 0 <= k < count ==> wet[k] == other[k],
    ensures
        delayed(line, position, wet, count) == delayed(line, position, other, count),
    decreases count,
{
    if count > 0 {
        lemma_delayed_prefix(line, position, wet, other, count - 1);
    }
}

/// Storing samples in a delay line does not change its length.
pub proof fn lemma_delayed_len<T>(line: Seq<T>, position: int, wet: Seq<T>, count: int)
    requires
        line.len() > 0,
    ensures
        delayed(line, position, wet, count).len() == line.len(),
    decreases count,
{
    if count > 0 {
        lemma_delayed_len(line, position, wet, count - 1);
        vstd::arithmetic::div_mod::lemma_mod_bound(position + count - 1, line.len() as int);
    }
}

/// Two numbers less than one round apart do not share a slot.
proof fn lemma_slots_differ(a: int, b: int, len: int)
    requires
        0 <= a < b < a + len,
    ensures
        a % len != b % len,
{
    vstd::arithmetic::div_mod::lemma_fundamental_div_mod(a, len);
    vstd::arithmetic::div_mod::lemma_fundamental_div_mod(b, len);
    if a % len == b % len {
        let qa = a / len;
        let qb = b / len;
        assert(b - a == len * (qb - qa)) by (nonlinear_arith)
            requires
                a == len * qa + a % len,
                b == len * qb + b % len,
                a % len == b % len,
        ;
        assert(false) by (nonlinear_arith)
            requires
                b - a == len * (qb - qa),
                0 < b - a < len,
        ;
    }
}

/// The echo comes one delay period late: while `count` samples of `wet`
/// go into a delay line of `len` slots, sample `i` finds in its slot the
/// sample `i - len`, or, in the first period, what the line held at the
/// start.
pub proof fn lemma_echo_is_one_delay_late<T>(
    line: Seq<T>,
    position: int,
    wet: Seq<T>,
    count: int,
    i: int,
)
    requires
        0 < line.len(),
        0 <= position,
        0 <= count <= i < count + line.len(),
    ensures
        delayed(line, position, wet, count)[(position + i) % (line.len() as int)] == if i
            < line.len() {
            line[(position + i) % (line.len() as int)]
        } else {
            wet[i - line.len()]
        },
    decreases count,
{
    let len = line.len() as int;
    vstd::arithmetic::div_mod::lemma_mod_bound(position + i, len);
    if count > 0 {
        let stored = position + count - 1;
        vstd::arithmetic::div_mod::lemma_mod_bound(stored, len);
        lemma_delayed_len(line, position, wet, count - 1);
        if count - 1 + len == i {
            vstd::arithmetic::div_mod::lemma_mod_add_multiples_vanish(stored, len);
            assert(position + i == len + stored);
        } else {
            lemma_slots_differ(stored, position + i, len);
            lemma_echo_is_one_delay_late(line, position, wet, count - 1, i);
        }
    }
}

/// An echo that decays to nothing at once is the dry signal: where
/// `decay` turns every sample into silence, and silence added to a sample
/// gives that sample, the echoed samples are the input.
pub proof fn lemma_silent_decay_is_dry<T: Sample>(
    line: Seq<T>,
    position: int,
    decay: T,
    input: Seq<T>,
    count: int,
    output: Seq<T>,
)
    requires
        forall|held: T, faded: T| #[trigger] multiplies(held, decay, faded) ==> silent(faded),
        forall|quiet: T, sample: T, sum: T|
            silent(quiet) && #[trigger] sums(quiet, sample, sum) ==> sum == sample,
        0 <= count <= input.len(),
        echoed(line, position, decay, input, count, output),
    ensures
        output == input,
{
    assert forall|i: int| 0 <= i < input.len() implies output[i] == input[i] by {
        if i < count {
            let held = delayed(line, position, output, i)[(position + i) % (line.len() as int)];
            let faded = choose|faded: T| #[trigger] feed_steps(held, decay, input[i], faded, output[i]);
            assert(multiplies(held, decay, faded));
            assert(sums(faded, input[i], output[i]));
        }
    }
    assert(output =~= input);
}

/// The slot after slot `a % len` is the next one, or the first after the
/// last.
proof fn lemma_next_slot(a: int, len: int)
    requires
        0 <= a,
        0 < len,
    ensures
        0 <= a % len < len,
        (a + 1) % len == if a % len + 1 == len { 0 } else { a % len + 1 },
{
    vstd::arithmetic::div_mod::lemma_fundamental_div_mod(a, len);
    vstd::arithmetic::div_mod::lemma_mod_bound(a, len);
    let q = a / len;
    let r = a % len;
    if r + 1 == len {
        assert(a + 1 == (q + 1) * len + 0) by (nonlinear_arith)
            requires
                a == len * q + r,
                r + 1 == len,
        ;
        vstd::arithmetic::div_mod::lemma_fundamental_div_mod_converse(a + 1, len, q + 1, 0);
    } else {
        assert(a + 1 == q * len + (r + 1)) by (nonlinear_arith)
            requires
                a == len * q + r,
        ;
        vstd::arithmetic::div_mod::lemma_fundamental_div_mod_converse(a + 1, len, q, r + 1);
    }
}

/// One more sample: if the samples before index `i` are echoed in `entry`,
/// and `now` is `entry` with the echoed sample at index `i`, then the
/// samples up to `i` are echoed in `now`, and the delay line takes the new
/// one.
proof fn lemma_echo_step<T: Sample>(
    line: Seq<T>,
    start: int,
    decay: T,
    input: Seq<T>,
    entry: Seq<T>,
    now: Seq<T>,
    i: int,
)
    requires
        0 <= i < entry.len(),
        now == entry.update(i, now[i]),
        forall|j: int|
            0 <= j < i ==> feeds(
                delayed(line, start, entry, j)[(start + j) % (line.len() as int)],
                decay,
                input[j],
                #[trigger] entry[j],
            ),
        feeds(
            delayed(line, start, entry, i)[(start + i) % (line.len() as int)],
            decay,
            input[i],
            now[i],
        ),
    ensures
        forall|j: int|
            0 <= j < i + 1 ==> feeds(
                delayed(line, start, now, j)[(start + j) % (line.len() as int)],
                decay,
                input[j],
                #[trigger] now[j],
            ),
        delayed(line, start, now, i + 1) == delayed(line, start, entry, i).update(
            (start + i) % (line.len() as int),
            now[i],
        ),
{
    assert forall|j: int| 0 <= j < i + 1 implies feeds(
        delayed(line, start, now, j)[(start + j) % (line.len() as int)],
        decay,
        input[j],
        #[trigger] now[j],
    ) by {
        lemma_delayed_prefix(line, start, now, entry, j);
        if j < i {
            assert(now[j] == entry[j]);
        }
    }
    lemma_delayed_prefix(line, start, now, entry, i);
}

/// Mixes the echo into the first `written` samples of `samples` and
/// stores the result in the delay line `buffer`, from `position` on, going
/// round; `position` moves on by `written`.
pub fn echo<T: Sample>(
    buffer: &mut Vec<T>,
    samples: &mut [T],
    written: usize,
    position: &mut usize,
    decay: T,
)
    requires
        *old(position) < old(buffer)@.len(),
        written <= old(samples)@.len(),
    ensures
        echoed(
            old(buffer)@,
            *old(position) as int,
            decay,
            old(samples)@,
            written as int,
            final(samples)@,
        ),
        final(buffer)@ == delayed(
            old(buffer)@,
            *old(position) as int,
            final(samples)@,
            written as int,
        ),
        *final(position) == (*old(position) + written) % (old(buffer)@.len() as int),
{
    let delay = buffer.len();
    let ghost line = buffer@;
    let ghost start = *position as int;
    proof {
        vstd::arithmetic::div_mod::lemma_small_mod(*position as nat, delay as nat);
    }
    let mut i: usize = 0;
    while i < written
        invariant
            delay == line.len(),
            delay == buffer.len(),
            0 < delay,
            0 <= start,
            written <= samples.len(),
            samples@.len() == old(samples)@.len(),
            i <= written,
            *position == (start + i) % (delay as int),
            *position < delay,
            buffer@ == delayed(line, start, samples@, i as int),
            forall|j: int|
                0 <= j < i ==> feeds(
                    delayed(line, start, samples@, j)[(start + j) % (delay as int)],
                    decay,
                    old(samples)@[j],
                    #[trigger] samples@[j],
                ),
            forall|j: int| i <= j < samples@.len() ==> #[trigger] samples@[j] == old(samples)@[j],
        decreases written - i,
    {
        let ghost entry = samples@;
        let held = buffer[*position];
        let faded = held.product(decay);
        let output = faded.sum(samples[i]);
        assert(feed_steps(held, decay, old(samples)@[i as int], faded, output));
        buffer[*position] = output;
        samples[i] = output;
        proof {
            lemma_next_slot(start + i, delay as int);
            lemma_echo_step(line, start, decay, old(samples)@, entry, samples@, i as int);
        }
        if *position + 1 == delay {
            *position = 0;
        } else {
            *position = *position + 1;
        }
        i += 1;
    }
}

/// Some steps from a delay in seconds to a number of frames:
/// `ceil(rate * delay)`.
pub open spec fn delay_steps<T: Sample>(rate: u32, delay: T, per_second: T, span: T, frames: usize) -> bool {
    &&& is_from_int(rate as i64, per_second)
    &&& multiplies(per_second, delay, span)
    &&& is_count(span, frames)
}

/// `frames` is the number of frames that go by in `delay` seconds at
/// `rate` frames per second, rounded up.
pub open spec fn is_delay<T: Sample>(rate: u32, delay: T, frames: usize) -> bool {
    exists|per_second: T, span: T| #[trigger] delay_steps(rate, delay, per_second, span, frames)
}

/// An effect that simulates an echo.
pub struct Echo<T, S> {
    source: S,
    decay: T,
    buffer: Vec<T>,
    position: usize,
}

impl<T: Sample, S: AudioSource<T>> Echo<T, S> {
    /// The source of audio for this effect.
    pub closed spec fn source(&self) -> S {
        self.source
    }

    /// The amount by which the echo decays on each repetition.
    pub closed spec fn decay(&self) -> T {
        self.decay
    }

    /// The delay line: the output of the last delay period.
    pub closed spec fn line(&self) -> Seq<T> {
        self.buffer@
    }

    /// The slot of the delay line that is next.
    pub closed spec fn position(&self) -> int {
        self.position as int
    }

    /// Whether `self` is an echo around `source` that has not read
    /// anything yet, with a silent delay line of `frames` frames.
    pub open spec fn fresh(&self, source: S, frames: int, decay: T) -> bool {
        &&& self.valid()
        &&& self.source() == source
        &&& self.decay() == decay
        &&& self.position() == 0
        &&& source.spec_format() matches Some(f) && self.line().len() == frames * f.channels
        &&& forall|i: int| 0 <= i < self.line().len() ==> silent(#[trigger] self.line()[i])
    }

    /// Construct a new `Echo` effect whose echo plays back `frames` frames
    /// late.
    ///
    /// # Arguments
    ///
    /// * `source` -- The source of audio for this effect.
    /// * `frames` -- The number of frames before the echo plays back.
    /// * `decay` -- The amount by which to decay the echo on each
    ///              repetition. Should be between 0.0 and 1.0, unless you
    ///              like feedback.
    pub fn with_delay_line(source: S, frames: usize, decay: T) -> (echo: Self)
        requires
            source.valid(),
            source.spec_format() matches Some(f) && 0 < frames * f.channels <= usize::MAX,
        ensures
            echo.fresh(source, frames as int, decay),
    {
        let format = source.format();
        let len = frames * (format.channels as usize);
        let mut buffer: Vec<T> = Vec::new();
        while buffer.len() < len
            invariant
                buffer.len() <= len,
                forall|i: int| 0 <= i < buffer@.len() ==> silent(#[trigger] buffer@[i]),
            decreases len - buffer.len(),
        {
            buffer.push(T::silence());
        }
        Echo { source, decay, buffer, position: 0 }
    }

    /// What [`new`](Self::new) returns where `delay` seconds come to
    /// `frames` frames: an echo that has not read anything yet, or nothing
    /// where the delay line would be empty or longer than a buffer can be.
    pub open spec fn made(source: S, delay: T, decay: T, frames: usize, echo: Option<Self>) -> bool {
        let format = source.spec_format()->0;
        &&& is_delay(format.sample_rate, delay, frames)
        &&& match echo {
            Some(echo) => {
                &&& 0 < frames * format.channels <= usize::MAX
                &&& echo.fresh(source, frames as int, decay)
            },
            None => !(0 < frames * format.channels <= usize::MAX),
        }
    }

    /// Construct a new `Echo` effect.
    ///
    /// The delay line takes the frames that go by in `delay` seconds,
    /// rounded up. There is no echo without a delay line: the result is
    /// `None` where it would be empty, or longer than a buffer can be.
    ///
    /// # Arguments
    ///
    /// * `source` -- The source of audio for this effect.
    /// * `delay` -- The length of time before the echo plays back, in
    ///              seconds.
    /// * `decay` -- The amount by which to decay the echo on each
    ///              repetition. Should be between 0.0 and 1.0, unless you
    ///              like feedback.
    pub fn new(source: S, delay: T, decay: T) -> (echo: Option<Self>)
        requires
            source.valid(),
            source.spec_format() is Some,
        ensures
            exists|frames: usize| #[trigger] Self::made(source, delay, decay, frames, echo),
    {
        let format = source.format();
        let per_second = T::from_int(format.sample_rate as i64);
        let span = per_second.product(delay);
        let frames = span.ceil_count();
        assert(delay_steps(format.sample_rate, delay, per_second, span, frames));
        assert(is_delay(format.sample_rate, delay, frames));
        let echo = match frames.checked_mul(format.channels as usize) {
            Some(len) => {
                if len == 0 {
                    None
                } else {
                    Some(Echo::with_delay_line(source, frames, decay))
                }
            },
            None => None,
        };
        assert(Self::made(source, delay, decay, frames, echo));
        echo
    }

    /// A read that takes the echo from `self` to `after`, with what the
    /// source put into the buffer, `dry`.
    pub open spec fn echoes(
        &self,
        after: &Self,
        before: Seq<T>,
        dry: Seq<T>,
        filled: Seq<T>,
        result: ReadResult,
    ) -> bool {
        &&& self.source().pulls(&after.source(), before, dry, result)
        &&& after.decay() == self.decay()
        &&& echoed(self.line(), self.position(), self.decay(), dry, result.read as int, filled)
        &&& after.line() == delayed(self.line(), self.position(), filled, result.read as int)
        &&& after.position() == (self.position() + result.read) % (self.line().len() as int)
    }
}

impl<T: Sample, S: AudioSource<T>> AudioSource<T> for Echo<T, S> {
    closed spec fn valid(&self) -> bool {
        &&& self.source.valid()
        &&& self.source.spec_format() is Some
        &&& self.position < self.buffer@.len()
    }

    open spec fn spec_format(&self) -> Option<AudioFormat> {
        self.source().spec_format()
    }

    /// The source is read into the buffer, and the echo is mixed into the
    /// samples that it gave, which the delay line takes in turn. The
    /// result is the source's.
    open spec fn pulls(
        &self,
        after: &Self,
        before: Seq<T>,
        filled: Seq<T>,
        result: ReadResult,
    ) -> bool {
        exists|dry: Seq<T>| #[trigger] self.echoes(after, before, dry, filled, result)
    }

    fn format(&self) -> (f: AudioFormat) {
        self.source.format()
    }

    fn read(&mut self, buffer: &mut [T]) -> (result: ReadResult) {
        let status = self.source.read(buffer);
        let written = status.read;
        let ghost dry = buffer@;
        echo(&mut self.buffer, buffer, written, &mut self.position, self.decay);
        proof {
            lemma_delayed_len(old(self).buffer@, old(self).position as int, buffer@, written as int);
            vstd::arithmetic::div_mod::lemma_mod_bound(
                old(self).position + written,
                old(self).buffer@.len() as int,
            );
            assert(old(self).echoes(self, old(buffer)@, dry, buffer@, status));
        }
        status
    }
}

} // verus!
