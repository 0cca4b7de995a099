use timbre::decoders::{convert_samples, SampleEncoding, WavDecoder};
use timbre::{AudioFormat, AudioSource, Sample, StreamState};

#[derive(Clone, Copy, Debug, PartialEq)]
struct F(f32);

impl Sample for F {
    fn silence() -> Self {
        F(0.0)
    }

    fn sum(self, other: Self) -> Self {
        F(self.0 + other.0)
    }

    fn difference(self, other: Self) -> Self {
        F(self.0 - other.0)
    }

    fn product(self, other: Self) -> Self {
        F(self.0 * other.0)
    }

    fn quotient(self, other: Self) -> Self {
        F(self.0 / other.0)
    }

    fn sine(self) -> Self {
        F(self.0.sin())
    }

    fn pi() -> Self {
        F(std::f32::consts::PI)
    }

    fn from_bits(bits: u32) -> Self {
        F(f32::from_bits(bits))
    }

    fn from_int(value: i64) -> Self {
        F(value as f32)
    }

    fn ceil_count(self) -> usize {
        self.0.ceil() as usize
    }
}

fn floats(samples: Vec<F>) -> Vec<f32> {
    samples.into_iter().map(|s| s.0).collect()
}

#[test]
fn converts_float_samples_of_either_byte_order() {
    let mut le = Vec::new();
    let mut be = Vec::new();
    for v in [0.0f32, 1.0, -0.5, 0.25] {
        le.extend_from_slice(&v.to_le_bytes());
        be.extend_from_slice(&v.to_be_bytes());
    }
    assert_eq!(floats(convert_samples::<F>(&le, SampleEncoding::F32LSB)), vec![0.0, 1.0, -0.5, 0.25]);
    assert_eq!(floats(convert_samples::<F>(&be, SampleEncoding::F32MSB)), vec![0.0, 1.0, -0.5, 0.25]);
}

#[test]
fn converts_signed_16_bit_samples() {
    let mut le = Vec::new();
    let mut be = Vec::new();
    for v in [0i16, i16::MAX, -i16::MAX, 16384, i16::MIN] {
        le.extend_from_slice(&v.to_le_bytes());
        be.extend_from_slice(&v.to_be_bytes());
    }
    let expected = vec![0.0, 1.0, -1.0, 16384.0 / 32767.0, -32768.0 / 32767.0];
    assert_eq!(floats(convert_samples::<F>(&le, SampleEncoding::S16LSB)), expected);
    assert_eq!(floats(convert_samples::<F>(&be, SampleEncoding::S16MSB)), expected);
}

#[test]
fn converts_signed_32_bit_samples() {
    let mut le = Vec::new();
    let mut be = Vec::new();
    for v in [0i32, i32::MAX, i32::MIN, -1] {
        le.extend_from_slice(&v.to_le_bytes());
        be.extend_from_slice(&v.to_be_bytes());
    }
    let expected: Vec<f32> = [0i32, i32::MAX, i32::MIN, -1]
        .iter()
        .map(|&v| v as f32 / i32::MAX as f32)
        .collect();
    assert_eq!(floats(convert_samples::<F>(&le, SampleEncoding::S32LSB)), expected);
    assert_eq!(floats(convert_samples::<F>(&be, SampleEncoding::S32MSB)), expected);
}

#[test]
fn converts_8_bit_samples() {
    let bytes = [0u8, 0x80, 0xff, 0x7f];
    assert_eq!(
        floats(convert_samples::<F>(&bytes, SampleEncoding::U8)),
        vec![-128.0 / 127.0, 0.0, 1.0, -1.0 / 127.0]
    );
    assert_eq!(
        floats(convert_samples::<F>(&bytes, SampleEncoding::S8)),
        vec![0.0, -128.0 / 127.0, -1.0 / 127.0, 1.0]
    );
}

#[test]
fn converts_unsigned_16_bit_samples() {
    let mut le = Vec::new();
    let mut be = Vec::new();
    for v in [0u16, 0x8000, 0xffff, 0x8001] {
        le.extend_from_slice(&v.to_le_bytes());
        be.extend_from_slice(&v.to_be_bytes());
    }
    let expected = vec![-32768.0 / 32767.0, 0.0, 1.0, 1.0 / 32767.0];
    assert_eq!(floats(convert_samples::<F>(&le, SampleEncoding::U16LSB)), expected);
    assert_eq!(floats(convert_samples::<F>(&be, SampleEncoding::U16MSB)), expected);
}

#[test]
fn converts_no_bytes_to_no_samples() {
    assert!(convert_samples::<F>(&[], SampleEncoding::S16LSB).is_empty());
}

#[test]
fn decoder_plays_its_samples_and_then_finishes() {
    let mut bytes = Vec::new();
    for v in [1i16, 2, 3, 4, 5, 6] {
        bytes.extend_from_slice(&(v * 32767 / 8).to_le_bytes());
    }
    let format = AudioFormat { channels: 2, sample_rate: 8 };
    let mut decoder: WavDecoder<F> = WavDecoder::new(&bytes, SampleEncoding::S16LSB, format);
    assert_eq!(decoder.format(), format);
    let all = floats(convert_samples::<F>(&bytes, SampleEncoding::S16LSB));

    let mut buffer = vec![F(9.0); 4];
    let result = decoder.read(&mut buffer);
    assert_eq!(result.state, StreamState::Good);
    assert_eq!(result.read, 4);
    assert_eq!(floats(buffer), all[..4].to_vec());

    let mut buffer = vec![F(9.0); 4];
    let result = decoder.read(&mut buffer);
    assert_eq!(result.state, StreamState::Finished);
    assert_eq!(result.read, 2);
    assert_eq!(floats(buffer), vec![all[4], all[5], 9.0, 9.0]);

    let mut buffer = vec![F(9.0); 2];
    let result = decoder.read(&mut buffer);
    assert_eq!(result.state, StreamState::Finished);
    assert_eq!(result.read, 0);
    assert_eq!(floats(buffer), vec![9.0, 9.0]);
}

#[test]
fn decoder_reports_good_when_the_buffer_takes_exactly_what_is_left() {
    let bytes = [0x80u8, 0xff];
    let format = AudioFormat { channels: 1, sample_rate: 8 };
    let mut decoder: WavDecoder<F> = WavDecoder::new(&bytes, SampleEncoding::U8, format);
    let mut buffer = vec![F(9.0); 2];
    let result = decoder.read(&mut buffer);
    assert_eq!(result.state, StreamState::Good);
    assert_eq!(result.read, 2);
    assert_eq!(floats(buffer), vec![0.0, 1.0]);
}
