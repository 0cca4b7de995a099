use std::collections::VecDeque;
use timbre::decoders::SampleEncoding;
use timbre::drivers::{capture, drain, render, rest, CaptureQueue};
use timbre::generators::SinWave;
use timbre::{AudioFormat, AudioSource, Error, ReadResult, Sample, StreamState};

#[derive(Clone, Copy, Debug, PartialEq)]
struct F(f32);

impl Sample for F {
    fn silence() -> Self {
        F(0.0)
    }

    fn sum(self, other: Self) -> Self {
        F(self.0 + other.0)
    }

    fn difference(self, other: Self) -> Self {
        F(self.0 - other.0)
    }

    fn product(self, other: Self) -> Self {
        F(self.0 * other.0)
    }

    fn quotient(self, other: Self) -> Self {
        F(self.0 / other.0)
    }

    fn sine(self) -> Self {
        F(self.0.sin())
    }

    fn pi() -> Self {
        F(std::f32::consts::PI)
    }

    fn from_bits(bits: u32) -> Self {
        F(f32::from_bits(bits))
    }

    fn from_int(value: i64) -> Self {
        F(value as f32)
    }

    fn ceil_count(self) -> usize {
        self.0.ceil() as usize
    }
}

fn samples(values: &[f32]) -> Vec<F> {
    values.iter().map(|&v| F(v)).collect()
}

fn floats(samples: &[F]) -> Vec<f32> {
    samples.iter().map(|s| s.0).collect()
}

/// A source that plays what its script says, one entry for each read.
struct Script {
    format: AudioFormat,
    reads: Vec<(StreamState, Vec<f32>)>,
}

impl Script {
    fn new(format: AudioFormat, reads: Vec<(StreamState, Vec<f32>)>) -> Self {
        Script { format, reads }
    }
}

impl AudioSource<F> for Script {
    fn format(&self) -> AudioFormat {
        self.format
    }

    fn read(&mut self, buffer: &mut [F]) -> ReadResult {
        if self.reads.is_empty() {
            return ReadResult::finished(0);
        }
        let (state, values) = self.reads.remove(0);
        for (slot, value) in buffer.iter_mut().zip(values.iter()) {
            *slot = F(*value);
        }
        ReadResult { state, read: values.len() }
    }
}

const MONO: AudioFormat = AudioFormat { channels: 1, sample_rate: 8 };
const STEREO: AudioFormat = AudioFormat { channels: 2, sample_rate: 8 };

fn close(actual: &[F], expected: &[f32], tolerance: f32) -> bool {
    actual.len() == expected.len()
        && actual.iter().zip(expected).all(|(a, e)| (a.0 - e).abs() <= tolerance)
}

#[test]
fn read_results_carry_their_state_and_count() {
    assert_eq!(ReadResult::good(3), ReadResult { state: StreamState::Good, read: 3 });
    assert_eq!(ReadResult::underrun(2), ReadResult { state: StreamState::Underrun, read: 2 });
    assert_eq!(ReadResult::finished(0), ReadResult { state: StreamState::Finished, read: 0 });
}

#[test]
fn formats_are_equal_when_both_fields_are() {
    assert_eq!(AudioFormat::default(), AudioFormat { channels: 2, sample_rate: 44100 });
    assert_eq!(AudioFormat::default(), AudioFormat::stereo_cd());
    assert_eq!(AudioFormat::mono_cd(), AudioFormat { channels: 1, sample_rate: 44100 });
    assert_eq!(AudioFormat::mono_dvd(), AudioFormat { channels: 1, sample_rate: 48000 });
    assert_eq!(AudioFormat::stereo_dvd(), AudioFormat { channels: 2, sample_rate: 48000 });
    assert_ne!(AudioFormat::mono_cd(), AudioFormat::stereo_cd());
    assert_ne!(AudioFormat::mono_cd(), AudioFormat::mono_dvd());
}

#[test]
fn sine_wave_fills_every_channel_of_a_frame_alike() {
    // A quarter of a turn for each frame.
    let mut wave = SinWave::new(STEREO, F(0.5), F(2.0));
    assert_eq!(wave.format(), STEREO);
    let mut buffer = samples(&[9.0; 8]);
    assert_eq!(wave.read(&mut buffer), ReadResult::good(8));
    let increment = std::f32::consts::PI * 2.0 * 2.0 / 8.0;
    let mut phase = 0.0f32;
    let mut expected = Vec::new();
    for _ in 0..4 {
        expected.push(0.5 * phase.sin());
        expected.push(0.5 * phase.sin());
        phase += increment;
    }
    assert!(close(&buffer, &expected, 1e-6));
    assert!(close(&buffer, &[0.0, 0.0, 0.5, 0.5, 0.0, 0.0, -0.5, -0.5], 1e-6));

    // The next read goes on where the first one stopped.
    let mut buffer = samples(&[9.0; 2]);
    assert_eq!(wave.read(&mut buffer), ReadResult::good(2));
    assert!(close(&buffer, &[0.5 * phase.sin(), 0.5 * phase.sin()], 1e-6));
    assert_eq!(buffer[0], buffer[1]);
}

#[test]
fn sine_wave_fills_an_empty_buffer_with_nothing() {
    let mut wave = SinWave::new(MONO, F(1.0), F(440.0));
    let mut buffer: Vec<F> = Vec::new();
    assert_eq!(wave.read(&mut buffer), ReadResult::good(0));
}

#[test]
fn render_silences_what_the_source_left() {
    let mut source = Script::new(
        MONO,
        vec![(StreamState::Good, vec![1.0, 2.0, 3.0]), (StreamState::Underrun, vec![4.0])],
    );
    let mut buffer = samples(&[9.0; 3]);
    assert_eq!(render(&mut source, &mut buffer), ReadResult::good(3));
    assert_eq!(floats(&buffer), vec![1.0, 2.0, 3.0]);
    assert_eq!(render(&mut source, &mut buffer), ReadResult::underrun(1));
    assert_eq!(floats(&buffer), vec![4.0, 0.0, 0.0]);
    assert_eq!(render(&mut source, &mut buffer), ReadResult::finished(0));
    assert_eq!(floats(&buffer), vec![0.0, 0.0, 0.0]);
}

#[test]
fn rest_is_silence() {
    let mut buffer = samples(&[9.0; 3]);
    rest(&mut buffer);
    assert_eq!(floats(&buffer), vec![0.0; 3]);
}

#[test]
fn captured_samples_come_out_in_the_order_they_went_in() {
    let mut queue = VecDeque::new();
    capture(&mut queue, &[1.0f32, 2.0, 3.0]);
    capture(&mut queue, &[4.0f32, 5.0]);
    assert_eq!(queue.len(), 5);

    let mut buffer = [9.0f32; 2];
    assert_eq!(drain(&mut queue, &mut buffer), ReadResult::good(2));
    assert_eq!(buffer, [1.0, 2.0]);
    let mut buffer = [9.0f32; 4];
    assert_eq!(drain(&mut queue, &mut buffer), ReadResult::underrun(3));
    assert_eq!(buffer, [3.0, 4.0, 5.0, 9.0]);
    assert!(queue.is_empty());
    assert_eq!(drain(&mut queue, &mut buffer), ReadResult::underrun(0));
    assert_eq!(buffer, [3.0, 4.0, 5.0, 9.0]);
}

#[test]
fn draining_exactly_what_is_queued_is_good() {
    let mut queue = VecDeque::new();
    capture(&mut queue, &[1.0f32, 2.0]);
    let mut buffer = [9.0f32; 2];
    assert_eq!(drain(&mut queue, &mut buffer), ReadResult::good(2));
    let mut nothing: [f32; 0] = [];
    assert_eq!(drain(&mut queue, &mut nothing), ReadResult::good(0));
}

#[test]
fn capture_queue_is_a_source_that_underruns_when_it_is_empty() {
    let mut queue: CaptureQueue<F> = CaptureQueue::new(STEREO);
    assert_eq!(queue.format(), STEREO);
    let mut buffer = samples(&[9.0; 4]);
    assert_eq!(queue.read(&mut buffer), ReadResult::underrun(0));
    assert_eq!(floats(&buffer), vec![9.0; 4]);

    queue.push(&samples(&[1.0, 2.0, 3.0, 4.0]));
    queue.push(&samples(&[5.0, 6.0]));
    assert_eq!(queue.read(&mut buffer), ReadResult::good(4));
    assert_eq!(floats(&buffer), vec![1.0, 2.0, 3.0, 4.0]);
    assert_eq!(queue.read(&mut buffer), ReadResult::underrun(2));
    assert_eq!(floats(&buffer), vec![5.0, 6.0, 3.0, 4.0]);
}

#[test]
fn device_frequencies_keep_their_bits() {
    assert_eq!(AudioFormat::from_spec(2, 44100), AudioFormat { channels: 2, sample_rate: 44100 });
    assert_eq!(AudioFormat::from_spec(1, 0), AudioFormat { channels: 1, sample_rate: 0 });
    assert_eq!(AudioFormat::from_spec(1, -1), AudioFormat { channels: 1, sample_rate: u32::MAX });
    assert_eq!(
        AudioFormat::from_spec(6, i32::MIN),
        AudioFormat { channels: 6, sample_rate: 0x8000_0000 }
    );
    assert_eq!(AudioFormat::stereo_dvd().freq(), 48000);
    assert_eq!(AudioFormat { channels: 1, sample_rate: u32::MAX }.freq(), -1);
    assert_eq!(AudioFormat { channels: 1, sample_rate: 0x8000_0000 }.freq(), i32::MIN);
    assert_eq!(AudioFormat { channels: 1, sample_rate: 0x7fff_ffff }.freq(), i32::MAX);
}

#[test]
fn encodings_know_their_width() {
    assert_eq!(SampleEncoding::U8.width(), 1);
    assert_eq!(SampleEncoding::S8.width(), 1);
    assert_eq!(SampleEncoding::U16LSB.width(), 2);
    assert_eq!(SampleEncoding::U16MSB.width(), 2);
    assert_eq!(SampleEncoding::S16LSB.width(), 2);
    assert_eq!(SampleEncoding::S16MSB.width(), 2);
    assert_eq!(SampleEncoding::S32LSB.width(), 4);
    assert_eq!(SampleEncoding::S32MSB.width(), 4);
    assert_eq!(SampleEncoding::F32LSB.width(), 4);
    assert_eq!(SampleEncoding::F32MSB.width(), 4);
}

#[test]
fn errors_wrap_what_went_wrong() {
    let error = Error::from_sdl(String::from("no such device"));
    assert!(matches!(&error, Error::SdlError(message) if message == "no such device"));
    assert_eq!(error.message(), "SdlError(\"no such device\")");

    let error = Error::from(std::io::Error::new(std::io::ErrorKind::NotFound, "gone"));
    assert!(matches!(&error, Error::IoError(inner) if inner.kind() == std::io::ErrorKind::NotFound));
    assert!(error.message().starts_with("IoError("));
}
