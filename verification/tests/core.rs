use svg_painter::genetic::color::Rgba;
use svg_painter::util::{bounded_add, clamp, isqrt, random_points_in_range};

#[test]
fn bounded_add_saturates_high() {
    assert_eq!(bounded_add(200, 100), 255);
    assert_eq!(bounded_add(255, 1), 255);
    assert_eq!(bounded_add(0, 1000000), 255);
}

#[test]
fn bounded_add_saturates_low() {
    assert_eq!(bounded_add(5, -10), 0);
    assert_eq!(bounded_add(0, -1), 0);
    assert_eq!(bounded_add(200, -1000000), 0);
}

#[test]
fn bounded_add_plain() {
    assert_eq!(bounded_add(10, -3), 7);
    assert_eq!(bounded_add(10, 3), 13);
    assert_eq!(bounded_add(0, 0), 0);
}

#[test]
fn clamp_cases() {
    assert_eq!(clamp(5, 0, 3), 3);
    assert_eq!(clamp(-1, 0, 3), 0);
    assert_eq!(clamp(2, 0, 3), 2);
    assert_eq!(clamp(0, 0, 3), 0);
    assert_eq!(clamp(3, 0, 3), 3);
}

#[test]
fn isqrt_cases() {
    assert_eq!(isqrt(0), 0);
    assert_eq!(isqrt(1), 1);
    assert_eq!(isqrt(15), 3);
    assert_eq!(isqrt(16), 4);
    assert_eq!(isqrt(999_999), 999);
    assert_eq!(isqrt(1_000_000), 1000);
    assert_eq!(isqrt(u64::MAX), 4294967295);
}

#[test]
fn as_hex_is_zero_padded() {
    assert_eq!(Rgba::new(1, 2, 3, 77).as_hex(), "#010203");
    assert_eq!(Rgba::new(255, 0, 10, 255).as_hex(), "#FF000A");
    assert_eq!(Rgba::new(0, 0, 0, 0).as_hex(), "#000000");
}

#[test]
fn as_hex_is_always_six_hex_digits() {
    for v in [0u8, 1, 15, 16, 127, 128, 254, 255] {
        let s = Rgba::new(v, 255 - v, v / 2, v).as_hex();
        assert_eq!(s.len(), 7);
        let bytes = s.as_bytes();
        assert_eq!(bytes[0], b'#');
        for &b in &bytes[1..] {
            assert!(b.is_ascii_hexdigit());
        }
    }
}

#[test]
fn shifted_saturates_per_channel() {
    let c = Rgba::new(10, 10, 10, 10).shifted(-20, 300, 5, 0);
    assert_eq!((c.r, c.g, c.b, c.a), (0, 255, 15, 10));
}

#[test]
fn mutate_keeps_channels_in_range_for_any_magnitude() {
    for &m in &[-1_000_000_000_i64, -50, 0, 7, 20, 123_456_789, i64::MAX, i64::MIN] {
        let mut c = Rgba::new(0, 128, 255, 1);
        for _ in 0..50 {
            c.mutate(m);
        }
        // The channels are bytes, so the saturation invariant is what
        // keeps this from panicking on the way here.
        assert!(c.r <= 255 && c.g <= 255 && c.b <= 255 && c.a <= 255);
    }
}

#[test]
fn random_points_cover_small_ranges_whole() {
    let pts = random_points_in_range(10, 3, 7);
    assert_eq!(pts, vec![3, 4, 5, 6]);
}

#[test]
fn random_points_sample_large_ranges() {
    let pts = random_points_in_range(5, 0, 1000);
    assert_eq!(pts.len(), 5);
    assert_eq!(pts[0], 0);
    assert_eq!(*pts.last().unwrap(), 1000);
    for w in pts.windows(2) {
        assert!(w[0] < w[1]);
    }
}

#[test]
fn random_points_keep_endpoints_for_tiny_counts() {
    let pts = random_points_in_range(0, 0, 100);
    assert_eq!(pts.len(), 2);
    assert_eq!(pts, vec![0, 100]);
}
