use timbre::effects::{BasicMixer, Echo, HighPass, LowPass};
use timbre::generators::SinWave;
use timbre::{AudioFormat, AudioSource, ReadResult, Sample, StreamState};

#[derive(Clone, Copy, Debug, PartialEq)]
struct F(f32);

impl Sample for F {
    fn silence() -> Self {
        F(0.0)
    }

    fn sum(self, other: Self) -> Self {
        F(self.0 + other.0)
    }

    fn difference(self, other: Self) -> Self {
        F(self.0 - other.0)
    }

    fn product(self, other: Self) -> Self {
        F(self.0 * other.0)
    }

    fn quotient(self, other: Self) -> Self {
        F(self.0 / other.0)
    }

    fn sine(self) -> Self {
        F(self.0.sin())
    }

    fn pi() -> Self {
        F(std::f32::consts::PI)
    }

    fn from_bits(bits: u32) -> Self {
        F(f32::from_bits(bits))
    }

    fn from_int(value: i64) -> Self {
        F(value as f32)
    }

    fn ceil_count(self) -> usize {
        self.0.ceil() as usize
    }
}

fn samples(values: &[f32]) -> Vec<F> {
    values.iter().map(|&v| F(v)).collect()
}

fn floats(samples: &[F]) -> Vec<f32> {
    samples.iter().map(|s| s.0).collect()
}

/// A source that plays what its script says, one entry for each read.
struct Script {
    format: AudioFormat,
    reads: Vec<(StreamState, Vec<f32>)>,
}

impl Script {
    fn new(format: AudioFormat, reads: Vec<(StreamState, Vec<f32>)>) -> Self {
        Script { format, reads }
    }
}

impl AudioSource<F> for Script {
    fn format(&self) -> AudioFormat {
        self.format
    }

    fn read(&mut self, buffer: &mut [F]) -> ReadResult {
        if self.reads.is_empty() {
            return ReadResult::finished(0);
        }
        let (state, values) = self.reads.remove(0);
        for (slot, value) in buffer.iter_mut().zip(values.iter()) {
            *slot = F(*value);
        }
        ReadResult { state, read: values.len() }
    }
}

const MONO: AudioFormat = AudioFormat { channels: 1, sample_rate: 8 };
const STEREO: AudioFormat = AudioFormat { channels: 2, sample_rate: 8 };

fn close(actual: &[F], expected: &[f32], tolerance: f32) -> bool {
    actual.len() == expected.len()
        && actual.iter().zip(expected).all(|(a, e)| (a.0 - e).abs() <= tolerance)
}

/// Numbers between -1 and 1 that look random and are the same every time.
struct Noise(u32);

impl Noise {
    fn next(&mut self) -> f32 {
        self.0 = self.0.wrapping_mul(1664525).wrapping_add(1013904223);
        (self.0 >> 8) as f32 / 8388608.0 - 1.0
    }

    fn take(&mut self, count: usize) -> Vec<f32> {
        (0..count).map(|_| self.next()).collect()
    }
}

/// Three reads of a stream: a full one, a short one and a full one.
fn stream(noise: &mut Noise, format: AudioFormat) -> (Script, Vec<Vec<f32>>) {
    let channels = format.channels as usize;
    let reads = vec![noise.take(8 * channels), noise.take(3 * channels), noise.take(8 * channels)];
    let script = Script::new(
        format,
        vec![
            (StreamState::Good, reads[0].clone()),
            (StreamState::Underrun, reads[1].clone()),
            (StreamState::Good, reads[2].clone()),
        ],
    );
    (script, reads)
}

fn coefficient_of(cutoff: f32, rate: u32) -> f32 {
    let rc = 1.0 / (2.0 * std::f32::consts::PI * cutoff);
    let dt = 1.0 / rate as f32;
    dt / (rc + dt)
}

#[test]
fn low_pass_is_the_recurrence_of_every_channel() {
    for format in [MONO, STEREO] {
        let channels = format.channels as usize;
        let mut noise = Noise(1);
        let (script, reads) = stream(&mut noise, format);
        let mut filter = LowPass::new(script, F(3.0));
        let a = coefficient_of(3.0, format.sample_rate);
        let mut last = vec![0.0f32; channels];
        for read in reads {
            let mut buffer = samples(&vec![5.0; 8 * channels]);
            let result = filter.read(&mut buffer);
            assert_eq!(result.read, read.len());
            let mut expected = vec![5.0f32; 8 * channels];
            for (i, x) in read.iter().enumerate() {
                let c = i % channels;
                last[c] = last[c] + a * (x - last[c]);
                expected[i] = last[c];
            }
            assert_eq!(floats(&buffer), expected);
        }
    }
}

#[test]
fn high_pass_is_the_recurrence_of_every_channel() {
    for format in [MONO, STEREO] {
        let channels = format.channels as usize;
        let mut noise = Noise(2);
        let (script, reads) = stream(&mut noise, format);
        let mut filter = HighPass::new(script, F(3.0));
        let a = coefficient_of(3.0, format.sample_rate);
        let mut last_in = vec![0.0f32; channels];
        let mut last_out = vec![0.0f32; channels];
        for read in reads {
            let mut buffer = samples(&vec![5.0; 8 * channels]);
            let result = filter.read(&mut buffer);
            assert_eq!(result.read, read.len());
            let mut expected = vec![5.0f32; 8 * channels];
            for (i, x) in read.iter().enumerate() {
                let c = i % channels;
                last_out[c] = a * (last_out[c] + x - last_in[c]);
                last_in[c] = *x;
                expected[i] = last_out[c];
            }
            assert_eq!(floats(&buffer), expected);
        }
    }
}

#[test]
fn echo_is_the_delay_line_fed_back() {
    for format in [MONO, STEREO] {
        let channels = format.channels as usize;
        let mut noise = Noise(3);
        let (script, reads) = stream(&mut noise, format);
        let mut effect = Echo::new(script, F(0.6), F(0.75)).unwrap();
        // 0.6 s at 8 frames a second are 4.8 frames: five frames.
        let mut line = vec![0.0f32; 5 * channels];
        let mut position = 0;
        for read in reads {
            let mut buffer = samples(&vec![5.0; 8 * channels]);
            let result = effect.read(&mut buffer);
            assert_eq!(result.read, read.len());
            let mut expected = vec![5.0f32; 8 * channels];
            for (i, x) in read.iter().enumerate() {
                line[position] = line[position] * 0.75 + x;
                expected[i] = line[position];
                position = (position + 1) % line.len();
            }
            assert_eq!(floats(&buffer), expected);
        }
    }
}

#[test]
fn mixer_is_the_sum_of_what_its_sources_read() {
    let mut noise = Noise(4);
    let mut mixer = BasicMixer::with_coefficient(F(0.25));
    let mut streams = Vec::new();
    for _ in 0..3 {
        let (script, reads) = stream(&mut noise, STEREO);
        mixer.add_source(script);
        streams.push(reads);
    }
    // The second source is short where the others are full, and the other
    // way round.
    streams[1].swap(0, 1);
    let mut second = BasicMixer::with_coefficient(F(0.25));
    for reads in &streams {
        second.add_source(Script::new(
            STEREO,
            reads
                .iter()
                .map(|read| {
                    let state = if read.len() == 16 {
                        StreamState::Good
                    } else {
                        StreamState::Underrun
                    };
                    (state, read.clone())
                })
                .collect(),
        ));
    }
    for round in 0..3 {
        let mut buffer = samples(&vec![5.0; 16]);
        let result = second.read(&mut buffer);
        let mut expected = vec![0.0f32; 16];
        let mut longest = 0;
        for (j, reads) in streams.iter().enumerate() {
            let read = &reads[round];
            longest = longest.max(read.len());
            for i in 0..16 {
                let part = if i < read.len() { read[i] } else { 0.0 };
                expected[i] = if j == 0 { part } else { expected[i] + part };
            }
        }
        for sample in expected.iter_mut() {
            *sample *= 0.25;
        }
        assert_eq!(floats(&buffer), expected);
        if longest == 16 {
            assert_eq!(result, ReadResult::good(16));
        } else {
            assert_eq!(result, ReadResult::underrun(longest));
        }
    }
    // The mixer that was built first reads the same streams in the order
    // in which they were made.
    let mut buffer = samples(&vec![5.0; 16]);
    assert_eq!(mixer.read(&mut buffer), ReadResult::good(16));
}

#[test]
fn sine_wave_is_the_sine_of_a_growing_phase() {
    let format = AudioFormat { channels: 2, sample_rate: 44100 };
    let mut wave = SinWave::new(format, F(0.8), F(440.0));
    let increment = std::f32::consts::PI * 2.0 * 440.0 / 44100.0;
    let mut phase = 0.0f32;
    for _ in 0..3 {
        let mut buffer = samples(&vec![5.0; 64]);
        assert_eq!(wave.read(&mut buffer), ReadResult::good(64));
        for frame in 0..32 {
            // The sine itself is the platform's: allow it its last digit.
            let expected = 0.8 * phase.sin();
            assert!((buffer[2 * frame].0 - expected).abs() <= 1e-6);
            assert_eq!(buffer[2 * frame + 1].0, buffer[2 * frame].0);
            phase += increment;
        }
    }
}

#[test]
fn every_read_fits_its_buffer() {
    let mut noise = Noise(5);
    let (script, _) = stream(&mut noise, STEREO);
    let mut graph = BasicMixer::new();
    graph.add_source(Echo::with_delay_line(LowPass::new(HighPass::new(script, F(1.0)), F(2.0)), 3, F(0.5)));
    let mut wave = SinWave::new(STEREO, F(1.0), F(1.0));
    for _ in 0..5 {
        let mut buffer = samples(&vec![5.0; 16]);
        let result = graph.read(&mut buffer);
        assert!(result.read <= 16);
        assert!(result.state != StreamState::Good || result.read == 16);
        assert!(result.state != StreamState::Finished);
        assert_eq!(result.read % 2, 0);
        let result = wave.read(&mut buffer);
        assert_eq!(result, ReadResult::good(16));
    }
}
