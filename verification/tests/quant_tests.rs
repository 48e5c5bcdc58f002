use waver::{quantize, SampleDepth};

/// Values covering zeros, fractions, range edges, huge magnitudes,
/// subnormals, infinities and NaN.
fn probe_values() -> Vec<f32> {
    vec![
        0.0,
        -0.0,
        0.5,
        -0.5,
        0.999999,
        1.0,
        -1.0,
        126.7,
        -127.5,
        127.0,
        -128.0,
        128.0,
        -129.0,
        32766.5,
        32767.0,
        32767.5,
        -32768.0,
        -32768.5,
        32768.0,
        -32769.0,
        1.0e9,
        -1.0e9,
        2147483520.0,
        -2147483648.0,
        2147483648.0,
        -2147483904.0,
        1.0e10,
        -1.0e10,
        1.0e-40,
        -1.0e-40,
        f32::MIN_POSITIVE,
        f32::MAX,
        f32::MIN,
        f32::INFINITY,
        f32::NEG_INFINITY,
        f32::NAN,
    ]
}

#[test]
fn test_quantize_matches_num_traits_i8() {
    for v in probe_values() {
        let ours: Option<i8> = quantize::<i8>(v.to_bits());
        let theirs: Option<i8> = num_traits::cast(v);
        assert_eq!(ours, theirs, "value {v}");
    }
}

#[test]
fn test_quantize_matches_num_traits_i16() {
    for v in probe_values() {
        let ours: Option<i16> = quantize::<i16>(v.to_bits());
        let theirs: Option<i16> = num_traits::cast(v);
        assert_eq!(ours, theirs, "value {v}");
    }
}

#[test]
fn test_quantize_matches_num_traits_i32() {
    for v in probe_values() {
        let ours: Option<i32> = quantize::<i32>(v.to_bits());
        let theirs: Option<i32> = num_traits::cast(v);
        assert_eq!(ours, theirs, "value {v}");
    }
}

#[test]
fn test_quantize_matches_num_traits_u8() {
    for v in probe_values() {
        let ours: Option<u8> = quantize::<u8>(v.to_bits());
        let theirs: Option<u8> = num_traits::cast(v);
        assert_eq!(ours, theirs, "value {v}");
    }
}

#[test]
fn test_quantize_matches_num_traits_u16() {
    for v in probe_values() {
        let ours: Option<u16> = quantize::<u16>(v.to_bits());
        let theirs: Option<u16> = num_traits::cast(v);
        assert_eq!(ours, theirs, "value {v}");
    }
}

#[test]
fn test_quantize_matches_num_traits_u32() {
    for v in probe_values() {
        let ours: Option<u32> = quantize::<u32>(v.to_bits());
        let theirs: Option<u32> = num_traits::cast(v);
        assert_eq!(ours, theirs, "value {v}");
    }
}

#[test]
fn test_quantize_unsigned_negative_fraction() {
    // A negative sample above minus one truncates to zero even for an
    // unsigned type; at or below minus one it no longer fits.
    assert_eq!(quantize::<u8>((-0.5f32).to_bits()), Some(0));
    assert_eq!(quantize::<u8>((-0.0f32).to_bits()), Some(0));
    assert_eq!(quantize::<u8>((-1.0f32).to_bits()), None);
    assert_eq!(quantize::<u8>((255.9f32).to_bits()), Some(255));
    assert_eq!(quantize::<u8>((256.0f32).to_bits()), None);
}

#[test]
fn test_quantize_truncates_toward_zero() {
    assert_eq!(quantize::<i16>((1.9f32).to_bits()), Some(1));
    assert_eq!(quantize::<i16>((-1.9f32).to_bits()), Some(-1));
    assert_eq!(quantize::<i16>((0.99f32).to_bits()), Some(0));
    assert_eq!(quantize::<i16>((-32768.9f32).to_bits()), Some(-32768));
    assert_eq!(quantize::<i16>((32767.9f32).to_bits()), Some(32767));
}

#[test]
fn test_quantize_out_of_range_is_none() {
    assert_eq!(quantize::<i16>((32768.0f32).to_bits()), None);
    assert_eq!(quantize::<i16>((-32769.0f32).to_bits()), None);
    assert_eq!(quantize::<i16>(f32::NAN.to_bits()), None);
    assert_eq!(quantize::<i16>(f32::INFINITY.to_bits()), None);
    assert_eq!(quantize::<i8>((128.0f32).to_bits()), None);
    assert_eq!(quantize::<i32>((2147483648.0f32).to_bits()), None);
}

#[test]
fn test_max_float_bits_match_type_maxima() {
    // The scale factor of each sample type is its greatest value as binary32.
    assert_eq!(i8::max_float_bits(), (i8::MAX as f32).to_bits());
    assert_eq!(i16::max_float_bits(), (i16::MAX as f32).to_bits());
    assert_eq!(i32::max_float_bits(), (i32::MAX as f32).to_bits());
    assert_eq!(u8::max_float_bits(), (u8::MAX as f32).to_bits());
    assert_eq!(u16::max_float_bits(), (u16::MAX as f32).to_bits());
    assert_eq!(u32::max_float_bits(), (u32::MAX as f32).to_bits());
}

#[test]
fn test_full_amplitude_bits_is_one() {
    assert_eq!(waver::wave::FULL_AMPLITUDE_BITS, (1.0f32).to_bits());
}
