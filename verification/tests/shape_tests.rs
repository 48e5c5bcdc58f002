use core::f32::consts::PI;

use waver::{Wave, WaveFunc};

/// Evaluate the periodic function of a wave at an angle in radians.
fn shape(func: WaveFunc, x: f32) -> f32 {
    match func {
        WaveFunc::Sine => libm::sinf(x),
        WaveFunc::Cosine => libm::cosf(x),
        WaveFunc::Square => libm::copysignf(1.0, libm::sinf(x)),
        WaveFunc::Sawtooth => libm::fmodf(x, 2.0 * PI) / PI - 1.0,
        WaveFunc::Triangle => 2.0 / PI * libm::asinf(libm::sinf(x)),
    }
}

/// Evaluate one wave sample at the given time index.
fn wave_sample(w: &Wave, idx: u32) -> f32 {
    let rate = f32::from_bits(w.sample_rate);
    let freq = f32::from_bits(w.frequency);
    let phase = f32::from_bits(w.phase);
    let amp = f32::from_bits(w.amplitude);
    let t = idx as f32 / rate;
    amp * shape(w.wavefunc, 2.0 * PI * t * freq + phase)
}

/// The first `n` samples of a wave's unbounded sequence.
fn wave_take(w: &Wave, n: usize) -> Vec<f32> {
    let mut it = w.iter();
    let mut out = Vec::new();
    for _ in 0..n {
        let idx = it.next();
        out.push(wave_sample(w, idx));
    }
    out
}

fn test_wave(func: WaveFunc) -> Wave {
    Wave {
        sample_rate: (500.0f32).to_bits(),
        frequency: (130.0f32).to_bits(),
        amplitude: (1.0f32).to_bits(),
        phase: (0.0f32).to_bits(),
        wavefunc: func,
    }
}

#[test]
fn test_sine_cosine_origin() {
    // With zero phase a sine wave starts at zero and a cosine wave at one.
    let s = wave_take(&test_wave(WaveFunc::Sine), 1);
    assert_eq!(s[0], 0.0);
    let c = wave_take(&test_wave(WaveFunc::Cosine), 1);
    assert_eq!(c[0], 1.0);
}

#[test]
fn test_square_first_samples() {
    let res = wave_take(&test_wave(WaveFunc::Square), 4);
    assert_eq!(res, vec![1.0, 1.0, -1.0, -1.0]);
}

#[test]
fn test_sawtooth_first_samples() {
    let res = wave_take(&test_wave(WaveFunc::Sawtooth), 5);
    let expected = [-1.0f32, -0.48, 0.04, 0.56, -0.92];
    for (got, want) in res.iter().zip(expected.iter()) {
        assert!((got - want).abs() < 1e-5, "got {got}, want {want}");
    }
}

#[test]
fn test_triangle_first_samples() {
    let res = wave_take(&test_wave(WaveFunc::Triangle), 5);
    let expected = [0.0f32, 0.96, -0.08, -0.88, 0.16];
    for (got, want) in res.iter().zip(expected.iter()) {
        assert!((got - want).abs() < 1e-5, "got {got}, want {want}");
    }
}
