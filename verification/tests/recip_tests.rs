use waver::count_recip_bits;

/// The reciprocal of a count must be bit-for-bit the value IEEE 754
/// arithmetic computes for `1.0 / (count as f32)`.
fn check(n: u64) {
    let ours = count_recip_bits(n);
    let theirs = (1.0f32 / n as f32).to_bits();
    assert_eq!(
        ours,
        theirs,
        "count {n}: got {:e}, want {:e}",
        f32::from_bits(ours),
        f32::from_bits(theirs)
    );
}

#[test]
fn test_recip_small_counts() {
    for n in 1..=4096u64 {
        check(n);
    }
}

#[test]
fn test_recip_powers_of_two() {
    for e in 0..64u32 {
        check(1u64 << e);
    }
}

#[test]
fn test_recip_around_precision_limit() {
    // Counts beyond 2^24 are no longer exactly representable and must be
    // rounded before taking the reciprocal.
    for n in [
        (1u64 << 24) - 3,
        (1u64 << 24) - 1,
        1u64 << 24,
        (1u64 << 24) + 1,
        (1u64 << 24) + 2,
        (1u64 << 24) + 3,
        (1u64 << 24) + 5,
        (1u64 << 25) + 7,
        (1u64 << 26) + 11,
        100_000_000,
        123_456_789,
    ] {
        check(n);
    }
}

#[test]
fn test_recip_huge_counts() {
    for n in [
        u32::MAX as u64,
        u32::MAX as u64 + 1,
        (1u64 << 40) + 12_345,
        3_000_000_000_000_000_000,
        u64::MAX - 1,
        u64::MAX,
    ] {
        check(n);
    }
}

#[test]
fn test_recip_exact_values() {
    assert_eq!(count_recip_bits(1), (1.0f32).to_bits());
    assert_eq!(count_recip_bits(2), (0.5f32).to_bits());
    assert_eq!(count_recip_bits(3), (1.0f32 / 3.0f32).to_bits());
    assert_eq!(count_recip_bits(10), (0.1f32).to_bits());
}
