use core::f32::consts::PI;

use waver::{Wave, WaveFunc};

/// Evaluate the periodic function of a wave at an angle in radians.
fn shape(func: WaveFunc, x: f32) -> f32 {
    match func {
        WaveFunc::Sine => libm::sinf(x),
        WaveFunc::Cosine => libm::cosf(x),
        WaveFunc::Square => libm::copysignf(1.0, libm::sinf(x)),
        WaveFunc::Sawtooth => libm::fmodf(x, 2.0 * PI) / PI - 1.0,
        WaveFunc::Triangle => 2.0 / PI * libm::asinf(libm::sinf(x)),
    }
}

/// Evaluate one wave sample at the given time index.
fn wave_sample(w: &Wave, idx: u32) -> f32 {
    let rate = f32::from_bits(w.sample_rate);
    let freq = f32::from_bits(w.frequency);
    let phase = f32::from_bits(w.phase);
    let amp = f32::from_bits(w.amplitude);
    let t = idx as f32 / rate;
    amp * shape(w.wavefunc, 2.0 * PI * t * freq + phase)
}

/// The first `n` samples of a wave's unbounded sequence.
fn wave_take(w: &Wave, n: usize) -> Vec<f32> {
    let mut it = w.iter();
    let mut out = Vec::new();
    for _ in 0..n {
        let idx = it.next();
        out.push(wave_sample(w, idx));
    }
    out
}

#[test]
fn test_wave_default() {
    let wave: Wave = Default::default();

    assert_eq!(
        wave,
        Wave {
            sample_rate: (0.0f32).to_bits(),
            frequency: (0.0f32).to_bits(),
            phase: (0.0f32).to_bits(),
            amplitude: (1.0f32).to_bits(),
            wavefunc: WaveFunc::Sine
        }
    );
}

#[test]
fn test_wave_iteration() {
    let wave = Wave {
        sample_rate: (500.0f32).to_bits(),
        frequency: (130.0f32).to_bits(),
        ..Default::default()
    };
    let res: Vec<f32> = wave_take(&wave, 1001);

    // It must start from the point of origin.
    assert_eq!(res[0], 0.0);

    // The 2s of samples must match exactly.
    assert_eq!(&res[1..501], &res[501..]);
}

#[test]
fn test_wave_iteration_cosine() {
    let wave = Wave {
        sample_rate: (500.0f32).to_bits(),
        frequency: (130.0f32).to_bits(),
        wavefunc: WaveFunc::Cosine,
        ..Default::default()
    };
    let res: Vec<f32> = wave_take(&wave, 1001);

    // It must start from the point of origin.
    assert_eq!(res[0], 1.0);

    // The 2s of samples must match exactly.
    assert_eq!(&res[1..501], &res[501..]);
}

#[test]
fn test_wave_phase_shift() {
    let wave = Wave {
        sample_rate: (500.0f32).to_bits(),
        frequency: (120.0f32).to_bits(),
        phase: (PI / 2.0).to_bits(),
        ..Default::default()
    };
    let res: Vec<f32> = wave_take(&wave, 5);

    // A cosine wave is a sine wave with a phase shift of Pi / 2.
    assert_eq!(res[0], 1.0);
}

#[test]
fn test_phase_equivalence() {
    // A sine wave a quarter turn ahead starts where a cosine wave starts.
    let sine = Wave {
        sample_rate: (500.0f32).to_bits(),
        frequency: (120.0f32).to_bits(),
        phase: (PI / 2.0).to_bits(),
        ..Default::default()
    };
    let cosine = Wave {
        sample_rate: (500.0f32).to_bits(),
        frequency: (120.0f32).to_bits(),
        wavefunc: WaveFunc::Cosine,
        ..Default::default()
    };
    let s = wave_take(&sine, 1);
    let c = wave_take(&cosine, 1);
    assert_eq!(s[0], c[0]);
    assert_eq!(s[0], 1.0);
}

#[test]
fn test_index_cycling() {
    // With a rate of three the index visits zero once, then cycles 1, 2, 3.
    let wave = Wave { sample_rate: (3.0f32).to_bits(), ..Default::default() };
    let mut it = wave.iter();
    let mut idxs = Vec::new();
    for _ in 0..8 {
        idxs.push(it.next());
    }
    assert_eq!(idxs, vec![0, 1, 2, 3, 1, 2, 3, 1]);
}

#[test]
fn test_index_periodicity_long_run() {
    // One full second of indices repeats exactly, from step one on.
    let wave = Wave { sample_rate: (500.0f32).to_bits(), ..Default::default() };
    let mut it = wave.iter();
    let mut idxs = Vec::new();
    for _ in 0..1001 {
        idxs.push(it.next());
    }
    assert_eq!(&idxs[1..501], &idxs[501..]);
}
