use yars_raytracer::fixed::Fix;

#[test]
fn test_sqrt_is_exact_on_squares() {
    assert_eq!(Fix::from_int(81).sqrt(), Fix::from_int(9));
    assert_eq!(Fix::from_int(0).sqrt(), Fix::from_int(0));
    assert_eq!(Fix::new(250_000).sqrt(), Fix::new(500_000));
}

#[test]
fn test_sqrt_rounds_down() {
    assert_eq!(Fix::from_int(2).sqrt(), Fix::new(1_414_213));
}

#[test]
fn test_div_truncates_toward_zero() {
    assert_eq!(Fix::from_int(1).div(Fix::from_int(3)), Fix::new(333_333));
    assert_eq!(Fix::from_int(-1).div(Fix::from_int(3)), Fix::new(-333_333));
}

#[test]
fn test_pow_of_half() {
    assert_eq!(Fix::new(500_000).powi(2), Fix::new(250_000));
    assert_eq!(Fix::new(500_000).powi(0), Fix::from_int(1));
    assert_eq!(Fix::from_int(1).powi(7), Fix::from_int(1));
}

#[test]
fn test_pow_saturates_above_channel_ceiling() {
    assert_eq!(Fix::from_int(1000).powi(2), Fix::new(256_000_000));
}

#[test]
fn test_mul_truncates() {
    assert_eq!(Fix::new(1_500_000).mul(Fix::new(1_500_000)), Fix::new(2_250_000));
    assert_eq!(Fix::new(3).mul(Fix::new(3)), Fix::new(0));
}
