use raytrace::fixed::{Fx, SCALE};

#[test]
fn from_int_scales() {
    assert_eq!(Fx::from_int(3).bits, 3 * SCALE);
    assert_eq!(Fx::from_int(-2).bits, -2 * SCALE);
}

#[test]
fn sqrt_of_exact_squares() {
    assert_eq!(Fx::from_int(9).sqrt(), Fx::from_int(3));
    assert_eq!(Fx::from_bits(16384).sqrt(), Fx::from_bits(32768));
}

#[test]
fn sqrt_rounds_down_to_the_grid() {
    assert_eq!(Fx::from_int(2).sqrt(), Fx::from_bits(92681));
}

#[test]
fn division_truncates_toward_zero() {
    assert_eq!(Fx::from_int(-7).div(Fx::from_int(2)), Fx::from_bits(-229376));
    assert_eq!(Fx::from_bits(-3).div(Fx::from_int(2)), Fx::from_bits(-1));
}

#[test]
fn multiplication_truncates_toward_zero() {
    assert_eq!(Fx::from_bits(-3).mul(Fx::from_bits(32768)), Fx::from_bits(-1));
    assert_eq!(Fx::from_bits(3).mul(Fx::from_bits(32768)), Fx::from_bits(1));
}
