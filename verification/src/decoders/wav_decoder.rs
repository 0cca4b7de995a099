//! The samples of a WAV file: their conversion from the bytes of the
//! file, and the source that plays them.

use vstd::prelude::*;
use crate::format::{lemma_whole_frames_add_up, AudioFormat, ReadResult, StreamState};
use crate::sample::{differs, divides, is_from_bits, is_from_int, Sample};
use crate::source::AudioSource;

verus! {

/// How the bytes of a WAV data chunk encode one sample.
#[derive(Copy, Clone, Debug, PartialEq, Eq, Structural)]
pub enum SampleEncoding {
    /// Unsigned 8-bit samples.
    U8,
    /// Signed 8-bit samples.
    S8,
    /// Unsigned 16-bit samples, little-endian.
    U16LSB,
    /// Unsigned 16-bit samples, big-endian.
    U16MSB,
    /// Signed 16-bit samples, little-endian.
    S16LSB,
    /// Signed 16-bit samples, big-endian.
    S16MSB,
    /// Signed 32-bit samples, little-endian.
    S32LSB,
    /// Signed 32-bit samples, big-endian.
    S32MSB,
    /// 32-bit floating point samples, little-endian.
    F32LSB,
    /// 32-bit floating point samples, big-endian.
    F32MSB,
}

impl SampleEncoding {
    /// The number of bytes that hold one sample.
    pub open spec fn spec_width(self) -> nat {
        match self {
            SampleEncoding::U8 | SampleEncoding::S8 => 1,
            SampleEncoding::U16LSB | SampleEncoding::U16MSB => 2,
            SampleEncoding::S16LSB | SampleEncoding::S16MSB => 2,
            _ => 4,
        }
    }

    /// Whether the first byte of a sample is its most significant one.
    pub open spec fn big_endian(self) -> bool {
        match self {
            SampleEncoding::U16MSB | SampleEncoding::S16MSB => true,
            SampleEncoding::S32MSB | SampleEncoding::F32MSB => true,
            _ => false,
        }
    }

    /// Whether the bytes hold a two's complement integer.
    pub open spec fn signed(self) -> bool {
        match self {
            SampleEncoding::S8 | SampleEncoding::S16LSB | SampleEncoding::S16MSB => true,
            SampleEncoding::S32LSB | SampleEncoding::S32MSB => true,
            _ => false,
        }
    }

    /// Whether the bytes hold the binary encoding of a sample, to be taken
    /// as it is.
    pub open spec fn floating(self) -> bool {
        self == SampleEncoding::F32LSB || self == SampleEncoding::F32MSB
    }

    /// The integer that stands for the sample 1.0: the largest value of the
    /// signed integer type of the same width.
    pub open spec fn full_scale(self) -> int {
        if self.spec_width() == 1 {
            0x7f
        } else if self.spec_width() == 2 {
            0x7fff
        } else {
            0x7fff_ffff
        }
    }

    /// The integer that stands for silence in an unsigned encoding.
    pub open spec fn midpoint(self) -> int {
        if self.spec_width() == 1 {
            0x80
        } else {
            0x8000
        }
    }

    /// The number of bytes that hold one sample.
    pub fn width(self) -> (w: usize)
        ensures
            w == self.spec_width(),
    {
        match self {
            SampleEncoding::U8 | SampleEncoding::S8 => 1,
            SampleEncoding::U16LSB | SampleEncoding::U16MSB => 2,
            SampleEncoding::S16LSB | SampleEncoding::S16MSB => 2,
            _ => 4,
        }
    }
}

/// The unsigned integer that `bytes` spell, least significant byte first.
pub open spec fn little_endian(bytes: Seq<u8>) -> int
    decreases bytes.len(),
{
    if bytes.len() == 0 {
        0
    } else {
        bytes[0] as int + 256 * little_endian(bytes.skip(1))
    }
}

/// Two to the power of `8 * width`, for the widths of the encodings.
pub open spec fn modulus(width: nat) -> int {
    if width == 1 {
        0x100
    } else if width == 2 {
        0x1_0000
    } else {
        0x1_0000_0000
    }
}

/// The integer that the bytes of one sample hold under `encoding`: the
/// bits of a floating point sample, or else its integer value.
pub open spec fn raw_value(encoding: SampleEncoding, bytes: Seq<u8>) -> int {
    let ordered = if encoding.big_endian() {
        bytes.reverse()
    } else {
        bytes
    };
    let unsigned = little_endian(ordered);
    let m = modulus(encoding.spec_width());
    if encoding.signed() && 2 * unsigned >= m {
        unsigned - m
    } else {
        unsigned
    }
}

/// `sample` is `raw` over `full`, with the two integers converted to the
/// samples `value` and `scale` first.
pub open spec fn scales<T: Sample>(raw: int, full: int, value: T, scale: T, sample: T) -> bool {
    &&& is_from_int(raw as i64, value)
    &&& is_from_int(full as i64, scale)
    &&& divides(value, scale, sample)
}

/// `sample` is `raw` less `mid`, over `full`: the three integers are
/// converted to the samples `value`, `middle` and `scale`, and `centred`
/// is the difference of the first two.
pub open spec fn centres<T: Sample>(
    raw: int,
    mid: int,
    full: int,
    value: T,
    middle: T,
    centred: T,
    scale: T,
    sample: T,
) -> bool {
    &&& is_from_int(raw as i64, value)
    &&& is_from_int(mid as i64, middle)
    &&& differs(value, middle, centred)
    &&& is_from_int(full as i64, scale)
    &&& divides(centred, scale, sample)
}

/// `sample` is what the bytes of one sample convert to.
///
/// Floating point encodings give the sample with those bits. A signed
/// integer is divided by the full scale of its width. An unsigned integer
/// is first moved down by the midpoint of its width.
pub open spec fn converts<T: Sample>(encoding: SampleEncoding, bytes: Seq<u8>, sample: T) -> bool {
    let raw = raw_value(encoding, bytes);
    if encoding.floating() {
        is_from_bits(raw as u32, sample)
    } else if encoding.signed() {
        exists|value: T, scale: T| #[trigger]
            scales(raw, encoding.full_scale(), value, scale, sample)
    } else {
        exists|value: T, middle: T, centred: T, scale: T| #[trigger]
            centres(
                raw,
                encoding.midpoint(),
                encoding.full_scale(),
                value,
                middle,
                centred,
                scale,
                sample,
            )
    }
}

/// The value of the one, two or four bytes of a sample, written out.
proof fn lemma_little_endian_of_a_sample(bytes: Seq<u8>)
    requires
        bytes.len() <= 4,
    ensures
        bytes.len() == 1 ==> little_endian(bytes) == bytes[0],
        bytes.len() == 2 ==> little_endian(bytes) == bytes[0] + 256 * bytes[1],
        bytes.len() == 4 ==> little_endian(bytes) == bytes[0] + 256 * bytes[1] + 65536 * bytes[2]
            + 16777216 * bytes[3],
{
    reveal_with_fuel(little_endian, 5);
    if bytes.len() >= 1 {
        let b1 = bytes.skip(1);
        if bytes.len() >= 2 {
            let b2 = b1.skip(1);
            assert(b1[0] == bytes[1]);
            if bytes.len() >= 3 {
                let b3 = b2.skip(1);
                assert(b2[0] == bytes[2]);
                if bytes.len() >= 4 {
                    assert(b3[0] == bytes[3]);
                    assert(b3.skip(1).len() == 0);
                }
            }
        }
    }
}

/// Reads the integer that the sample starting at `start` holds.
fn read_raw(buffer: &[u8], start: usize, encoding: SampleEncoding) -> (raw: i64)
    requires
        start + encoding.spec_width() <= buffer@.len(),
    ensures
        raw == raw_value(encoding, buffer@.subrange(start as int, start + encoding.spec_width())),
        -0x8000_0000 <= raw < 0x1_0000_0000,
        !encoding.signed() ==> 0 <= raw,
{
    let width = encoding.width();
    let ghost bytes = buffer@.subrange(start as int, start + encoding.spec_width());
    let big = match encoding {
        SampleEncoding::U16MSB | SampleEncoding::S16MSB => true,
        SampleEncoding::S32MSB | SampleEncoding::F32MSB => true,
        _ => false,
    };
    let signed = match encoding {
        SampleEncoding::S8 | SampleEncoding::S16LSB | SampleEncoding::S16MSB => true,
        SampleEncoding::S32LSB | SampleEncoding::S32MSB => true,
        _ => false,
    };
    let ghost ordered = if big { bytes.reverse() } else { bytes };
    proof {
        lemma_little_endian_of_a_sample(ordered);
    }
    let unsigned: i64 = if width == 1 {
        buffer[start] as i64
    } else if width == 2 {
        let b0 = buffer[start] as i64;
        let b1 = buffer[start + 1] as i64;
        assert(bytes[0] == b0 && bytes[1] == b1);
        if big {
            b1 + 256 * b0
        } else {
            b0 + 256 * b1
        }
    } else {
        let b0 = buffer[start] as i64;
        let b1 = buffer[start + 1] as i64;
        let b2 = buffer[start + 2] as i64;
        let b3 = buffer[start + 3] as i64;
        assert(bytes[0] == b0 && bytes[1] == b1 && bytes[2] == b2 && bytes[3] == b3);
        if big {
            b3 + 256 * b2 + 65536 * b1 + 16777216 * b0
        } else {
            b0 + 256 * b1 + 65536 * b2 + 16777216 * b3
        }
    };
    assert(unsigned == little_endian(ordered));
    let modulus: i64 = if width == 1 {
        0x100
    } else if width == 2 {
        0x1_0000
    } else {
        0x1_0000_0000
    };
    if signed && 2 * unsigned >= modulus {
        unsigned - modulus
    } else {
        unsigned
    }
}

/// Converts the sample with the raw value `raw`.
fn convert_one<T: Sample>(encoding: SampleEncoding, raw: i64, Ghost(bytes): Ghost<Seq<u8>>) -> (sample: T)
    requires
        raw == raw_value(encoding, bytes),
        -0x8000_0000 <= raw < 0x1_0000_0000,
        !encoding.signed() ==> 0 <= raw,
    ensures
        converts(encoding, bytes, sample),
{
    if raw_is_bits(encoding) {
        T::from_bits(raw as u32)
    } else {
        let full: i64 = match encoding {
            SampleEncoding::U8 | SampleEncoding::S8 => 0x7f,
            SampleEncoding::S32LSB | SampleEncoding::S32MSB => 0x7fff_ffff,
            _ => 0x7fff,
        };
        let value = T::from_int(raw);
        let scale = T::from_int(full);
        match encoding {
            SampleEncoding::U8 | SampleEncoding::U16LSB | SampleEncoding::U16MSB => {
                let mid: i64 = if full == 0x7f { 0x80 } else { 0x8000 };
                let middle = T::from_int(mid);
                let centred = value.difference(middle);
                let sample = centred.quotient(scale);
                assert(centres(
                    raw_value(encoding, bytes),
                    encoding.midpoint(),
                    encoding.full_scale(),
                    value,
                    middle,
                    centred,
                    scale,
                    sample,
                ));
                sample
            },
            _ => {
                let sample = value.quotient(scale);
                assert(scales(
                    raw_value(encoding, bytes),
                    encoding.full_scale(),
                    value,
                    scale,
                    sample,
                ));
                sample
            },
        }
    }
}

/// Whether the raw value of a sample is its binary encoding.
fn raw_is_bits(encoding: SampleEncoding) -> (b: bool)
    ensures
        b == encoding.floating(),
{
    match encoding {
        SampleEncoding::F32LSB | SampleEncoding::F32MSB => true,
        _ => false,
    }
}

/// Converts the data chunk of a WAV file into samples.
///
/// The bytes hold whole samples, one after the other; the result holds one
/// sample for each, in the same order, converted as [`converts`] says.
pub fn convert_samples<T: Sample>(buffer: &[u8], encoding: SampleEncoding) -> (samples: Vec<T>)
    requires
        buffer@.len() % encoding.spec_width() == 0,
    ensures
        samples@.len() == buffer@.len() / encoding.spec_width(),
        forall|i: int|
            0 <= i < samples@.len() ==> converts(
                encoding,
                buffer@.subrange(i * encoding.spec_width(), (i + 1) * encoding.spec_width()),
                #[trigger] samples@[i],
            ),
{
    let width = encoding.width();
    let count = buffer.len() / width;
    let mut samples: Vec<T> = Vec::new();
    let mut i: usize = 0;
    while i < count
        invariant
            width == encoding.spec_width(),
            1 <= width <= 4,
            count == buffer.len() / width,
            buffer.len() % width == 0,
            i <= count,
            samples@.len() == i,
            forall|j: int|
                0 <= j < i ==> converts(
                    encoding,
                    buffer@.subrange(j * width, (j + 1) * width),
                    #[trigger] samples@[j],
                ),
        decreases count - i,
    {
        assert((i + 1) * width <= buffer@.len()) by (nonlinear_arith)
            requires
                i < count,
                count == buffer@.len() / (width as nat),
                1 <= width,
        ;
        assert(i * width + width == (i + 1) * width) by (nonlinear_arith);
        let start = i * width;
        let raw = read_raw(buffer, start, encoding);
        let sample = convert_one(
            encoding,
            raw,
            Ghost(buffer@.subrange(start as int, start + width)),
        );
        samples.push(sample);
        i += 1;
    }
    samples
}

/// An audio source that plays the samples of a decoded WAV file.
///
/// When the samples run out, `read` reports
/// [`Finished`](crate::StreamState::Finished).
pub struct WavDecoder<T> {
    data: Vec<T>,
    format: AudioFormat,
    position: usize,
}

impl<T: Sample> WavDecoder<T> {
    /// The samples of the file.
    pub closed spec fn data(&self) -> Seq<T> {
        self.data@
    }

    /// The number of samples already handed out.
    pub closed spec fn position(&self) -> int {
        self.position as int
    }

    /// Constructs a decoder that plays the data chunk `bytes` of a WAV
    /// file, which holds whole frames of `format` encoded as `encoding`
    /// says.
    pub fn new(bytes: &[u8], encoding: SampleEncoding, format: AudioFormat) -> (decoder: Self)
        requires
            bytes@.len() % encoding.spec_width() == 0,
            format.whole_frames((bytes@.len() / encoding.spec_width()) as int),
        ensures
            decoder.valid(),
            decoder.spec_format() == Some(format),
            decoder.position() == 0,
            decoder.data().len() == bytes@.len() / encoding.spec_width(),
            forall|i: int|
                0 <= i < decoder.data().len() ==> converts(
                    encoding,
                    bytes@.subrange(i * encoding.spec_width(), (i + 1) * encoding.spec_width()),
                    #[trigger] decoder.data()[i],
                ),
    {
        let data = convert_samples(bytes, encoding);
        WavDecoder { data, format, position: 0 }
    }
}

impl<T: Sample> WavDecoder<T> {
    /// A decoder that has finished stays finished: after a read that said
    /// so, every read into a buffer that holds anything says so again,
    /// and gives nothing.
    pub proof fn lemma_finished_for_good(
        &self,
        after: &Self,
        before: Seq<T>,
        filled: Seq<T>,
        result: ReadResult,
        later: &Self,
        next_before: Seq<T>,
        next_filled: Seq<T>,
        next_result: ReadResult,
    )
        requires
            self.valid(),
            self.pulls(after, before, filled, result),
            result.state == StreamState::Finished,
            after.pulls(later, next_before, next_filled, next_result),
            next_before.len() > 0,
        ensures
            next_result == (ReadResult { state: StreamState::Finished, read: 0 }),
            next_filled == next_before,
    {
        assert(next_filled =~= next_before);
    }
}

impl<T: Sample> AudioSource<T> for WavDecoder<T> {
    closed spec fn valid(&self) -> bool {
        &&& self.position <= self.data@.len()
        &&& self.format.whole_frames(self.data@.len() as int)
        &&& self.format.whole_frames(self.position as int)
    }

    closed spec fn spec_format(&self) -> Option<AudioFormat> {
        Some(self.format)
    }

    /// The buffer takes the samples that follow the position, as many as it
    /// holds or as are left; what lies behind them stays as it was.
    open spec fn pulls(
        &self,
        after: &Self,
        before: Seq<T>,
        filled: Seq<T>,
        result: ReadResult,
    ) -> bool {
        let remaining = self.data().len() - self.position();
        let taken = if before.len() <= remaining { before.len() as int } else { remaining };
        &&& after.data() == self.data()
        &&& after.position() == self.position() + taken
        &&& filled == self.data().subrange(self.position(), self.position() + taken)
            + before.subrange(taken, before.len() as int)
        &&& result == if before.len() <= remaining {
            ReadResult { state: StreamState::Good, read: before.len() as usize }
        } else {
            ReadResult { state: StreamState::Finished, read: remaining as usize }
        }
    }

    fn format(&self) -> (f: AudioFormat) {
        self.format
    }

    fn read(&mut self, buffer: &mut [T]) -> (result: ReadResult) {
        let remaining = self.data.len() - self.position;
        let wanted = buffer.len();
        let taken = if wanted <= remaining { wanted } else { remaining };
        proof {
            let c = self.format.channels as int;
            lemma_whole_frames_add_up(c, self.data@.len() as int, self.position as int);
            lemma_whole_frames_add_up(c, self.position as int, taken as int);
        }
        let mut i: usize = 0;
        while i < taken
            invariant
                i <= taken,
                taken <= buffer@.len(),
                self.position + taken <= self.data.len(),
                buffer@.len() == old(buffer)@.len(),
                self.data@ == old(self).data@,
                self.position == old(self).position,
                self.format == old(self).format,
                forall|j: int| 0 <= j < i ==> buffer@[j] == self.data@[self.position + j],
                forall|j: int| i <= j < buffer@.len() ==> buffer@[j] == old(buffer)@[j],
            decreases taken - i,
        {
            buffer[i] = self.data[self.position + i];
            i += 1;
        }
        proof {
            assert(buffer@ =~= old(self).data@.subrange(
                old(self).position as int,
                old(self).position + taken,
            ) + old(buffer)@.subrange(taken as int, old(buffer)@.len() as int));
        }
        self.position = self.position + taken;
        if wanted <= remaining {
            ReadResult::good(wanted)
        } else {
            ReadResult::finished(remaining)
        }
    }
}

} // verus!
