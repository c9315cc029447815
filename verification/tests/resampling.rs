//! Conversion of recorded audio, with the averaging and the resampling done around the library.

use flexaudio::vad::pcm::{PcmConverter, PcmFormat};
use rubato::audioadapter_buffers::direct::InterleavedSlice;
use rubato::{
    Async, FixedAsync, Indexing, Resampler, SincInterpolationParameters, SincInterpolationType,
    WindowFunction,
};
use std::f32::consts::PI;

/// A converter of the library with the floating point work around it.
struct Converter {
    inner: PcmConverter,
    resampler: Option<(Async<f32>, Vec<f32>)>,
}

fn bits(samples: &[f32]) -> Vec<u32> {
    samples.iter().map(|s| s.to_bits()).collect()
}

fn downmix(frames: &[u32], channels: usize) -> Vec<f32> {
    if channels <= 1 {
        return frames.iter().map(|&b| f32::from_bits(b)).collect();
    }
    let inv = 1.0 / channels as f32;
    frames
        .chunks_exact(channels)
        .map(|f| f.iter().map(|&b| f32::from_bits(b)).sum::<f32>() * inv)
        .collect()
}

impl Converter {
    fn around(inner: PcmConverter, in_rate: u32, out_rate: u32) -> Converter {
        let resampler = inner.resampler_chunk().map(|chunk| {
            let params = SincInterpolationParameters {
                sinc_len: 128,
                f_cutoff: 0.95,
                interpolation: SincInterpolationType::Linear,
                oversampling_factor: 128,
                window: WindowFunction::BlackmanHarris2,
            };
            let rs = Async::<f32>::new_sinc(
                out_rate as f64 / in_rate as f64,
                1.0,
                &params,
                chunk,
                1,
                FixedAsync::Input,
            )
            .unwrap();
            let scratch = vec![0.0; rs.output_frames_max()];
            (rs, scratch)
        });
        Converter { inner, resampler }
    }

    fn new(format: PcmFormat, out_rate: u32) -> Converter {
        Converter::around(PcmConverter::new(format, out_rate), format.sample_rate, out_rate)
    }

    fn convert(&mut self, interleaved: &[f32], out: &mut Vec<f32>) {
        let frames = self.inner.take_frames(&bits(interleaved));
        let mono = downmix(&frames, self.inner.channels());
        match &mut self.resampler {
            None => out.extend(mono),
            Some((rs, scratch)) => {
                self.inner.accumulate(&bits(&mono));
                while let Some(chunk) = self.inner.next_chunk() {
                    let chunk: Vec<f32> = chunk.iter().map(|&b| f32::from_bits(b)).collect();
                    let len = scratch.len();
                    let input = InterleavedSlice::new(&chunk[..], 1, chunk.len()).unwrap();
                    let mut output = InterleavedSlice::new_mut(&mut scratch[..], 1, len).unwrap();
                    let indexing = Indexing {
                        input_offset: 0,
                        output_offset: 0,
                        partial_len: None,
                        active_channels_mask: None,
                    };
                    let (_, written) = rs
                        .process_into_buffer(&input, &mut output, Some(&indexing))
                        .unwrap();
                    out.extend_from_slice(&scratch[..written]);
                    self.inner.drop_chunk();
                }
            }
        }
    }
}

#[test]
fn resample_48k_to_16k_preserves_tone() {
    let mut conv = Converter::new(
        PcmFormat {
            sample_rate: 48_000,
            channels: 1,
        },
        16_000,
    );
    let freq = 440.0_f32;
    let amp = 0.5_f32;
    let mut out = Vec::new();
    let total = 48_000 * 2;
    let mut i = 0usize;
    while i < total {
        let take = 441.min(total - i);
        let block: Vec<f32> = (0..take)
            .map(|k| (2.0 * PI * freq * ((i + k) as f32) / 48_000.0).sin() * amp)
            .collect();
        conv.convert(&block, &mut out);
        i += take;
    }
    assert!(
        out.len() >= 16_000,
        "at least 1 second of output is required: {}",
        out.len()
    );
    let mid = &out[4_000..4_000 + 16_000];
    let crossings = zero_crossings(mid);
    assert!(
        (876..=884).contains(&crossings),
        "frequency drifted after 16k resampling: crossings={crossings}"
    );
    let got = rms(mid);
    let expect = amp / std::f32::consts::SQRT_2;
    assert!(
        (got - expect).abs() < 0.02,
        "RMS drifted after 16k resampling: got={got} expect={expect}"
    );
}

#[test]
fn same_rate_stereo_only_downmixes() {
    let mut conv = Converter::new(
        PcmFormat {
            sample_rate: 16_000,
            channels: 2,
        },
        16_000,
    );
    assert!(conv.inner.resampler_chunk().is_none());
    let mut out = Vec::new();
    conv.convert(&[0.5, -0.5, 0.2, 0.2], &mut out);
    assert_eq!(out, vec![0.0, 0.2]);
}

#[test]
fn split_across_partial_frame_matches_bulk() {
    let fmt = PcmFormat {
        sample_rate: 16_000,
        channels: 2,
    };
    let interleaved: Vec<f32> = (0..2000).map(|i| (i as f32) * 1e-3).collect();

    let mut bulk = Vec::new();
    Converter::new(fmt, 16_000).convert(&interleaved, &mut bulk);

    let mut split = Vec::new();
    let mut conv = Converter::new(fmt, 16_000);
    for chunk in interleaved.chunks(777) {
        conv.convert(chunk, &mut split);
    }
    assert_eq!(bulk, split);
}

#[test]
fn frame_resampler_returns_one_16k_frame_per_8k_frame() {
    let mut converter = Converter::around(
        PcmConverter::new_8k_to_16k_frame_resampler(),
        8_000,
        16_000,
    );
    let mut discarded = Vec::new();
    converter.convert(&[0.0; 256], &mut discarded);
    let mut output = Vec::new();
    let input: Vec<f32> = (0..(256 * 4))
        .map(|i| (2.0 * PI * 440.0 * i as f32 / 8_000.0).sin() * 0.5)
        .collect();

    for frame in input.chunks_exact(256) {
        let before = output.len();
        converter.convert(frame, &mut output);
        assert_eq!(
            output.len() - before,
            512,
            "8 kHz frame must yield exactly one 16 kHz model frame"
        );
    }
}

fn rms(samples: &[f32]) -> f32 {
    let sum_sq: f64 = samples.iter().map(|&x| (x as f64) * (x as f64)).sum();
    (sum_sq / samples.len() as f64).sqrt() as f32
}

fn zero_crossings(samples: &[f32]) -> usize {
    let mut n = 0;
    for w in samples.windows(2) {
        if (w[0] < 0.0 && w[1] >= 0.0) || (w[0] >= 0.0 && w[1] < 0.0) {
            n += 1;
        }
    }
    n
}
