use waver::{Wave, WaveFunc};

/// Render a wave in its display format, formatting each numeric field with
/// the default shortest round-trip rendering.
fn render(w: &Wave) -> String {
    w.describe(
        &format!("{}", f32::from_bits(w.frequency)),
        &format!("{}", f32::from_bits(w.amplitude)),
        &format!("{}", f32::from_bits(w.sample_rate)),
    )
}

#[test]
fn test_wavefunc_labels() {
    assert_eq!(WaveFunc::Sine.label(), "Sine");
    assert_eq!(WaveFunc::Cosine.label(), "Cosine");
    assert_eq!(WaveFunc::Square.label(), "Square");
    assert_eq!(WaveFunc::Sawtooth.label(), "Sawtooth");
    assert_eq!(WaveFunc::Triangle.label(), "Triangle");
}

#[test]
fn test_wave_display_format() {
    let wave = Wave {
        sample_rate: (500.0f32).to_bits(),
        frequency: (120.0f32).to_bits(),
        ..Default::default()
    };
    // Integral values render without a fractional part.
    assert_eq!(
        render(&wave),
        "<Func: Sine, Freq: 120Hz, Ampl: 1, Sampling Freq: 500Hz>"
    );
}

#[test]
fn test_wave_display_fractional() {
    let wave = Wave {
        sample_rate: (44100.0f32).to_bits(),
        frequency: (432.5f32).to_bits(),
        amplitude: (0.25f32).to_bits(),
        wavefunc: WaveFunc::Triangle,
        ..Default::default()
    };
    assert_eq!(
        render(&wave),
        "<Func: Triangle, Freq: 432.5Hz, Ampl: 0.25, Sampling Freq: 44100Hz>"
    );
}
