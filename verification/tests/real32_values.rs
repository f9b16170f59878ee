use turing_display::real32::Real32;

fn num(x: f32) -> Real32 {
    Real32::from_bits(x.to_bits())
}

#[test]
fn ceil_sum_of_whole_numbers() {
    assert_eq!(Real32::ceil_sum(num(80.0), num(20.0)), 100);
    assert_eq!(Real32::ceil_sum(num(120.0), num(60.0)), 180);
    assert_eq!(Real32::ceil_sum(num(0.0), num(0.0)), 0);
}

#[test]
fn ceil_sum_rounds_fractions_up() {
    assert_eq!(Real32::ceil_sum(num(80.25), num(19.5)), 100);
    assert_eq!(Real32::ceil_sum(num(0.0), num(59.001)), 60);
    assert_eq!(Real32::ceil_sum(num(0.5), num(0.5)), 1);
    assert_eq!(Real32::ceil_sum(num(0.75), num(0.75)), 2);
}

#[test]
fn ceil_sum_with_negative_descent() {
    assert_eq!(Real32::ceil_sum(num(80.0), num(-30.0)), 50);
    assert_eq!(Real32::ceil_sum(num(80.5), num(-30.25)), 51);
    assert_eq!(Real32::ceil_sum(num(-30.25), num(80.5)), 51);
    assert_eq!(Real32::ceil_sum(num(10.0), num(-10.0)), 0);
    assert_eq!(Real32::ceil_sum(num(10.0), num(-10.5)), 0);
    assert_eq!(Real32::ceil_sum(num(-1.0), num(-2.0)), 0);
}

#[test]
fn ceil_sum_is_exact_where_single_precision_rounds() {
    let tiny = f32::from_bits(1);
    assert_eq!(Real32::ceil_sum(num(60.0), num(tiny)), 61);
    assert_eq!(Real32::ceil_sum(num(60.0), num(-tiny)), 60);
    assert_eq!(Real32::ceil_sum(num(tiny), num(-tiny)), 0);
    assert_eq!(Real32::ceil_sum(num(tiny), num(tiny)), 1);
    assert_eq!(Real32::ceil_sum(num(1.0e-30), num(-1.0e-31)), 1);
    assert_eq!(Real32::ceil_sum(num(1.0e-31), num(-1.0e-30)), 0);
}

#[test]
fn ceil_sum_saturates() {
    assert_eq!(Real32::ceil_sum(num(f32::MAX), num(f32::MAX)), usize::MAX);
    assert_eq!(Real32::ceil_sum(num(f32::INFINITY), num(1.0)), usize::MAX);
    assert_eq!(Real32::ceil_sum(num(f32::INFINITY), num(f32::NEG_INFINITY)), 0);
    assert_eq!(Real32::ceil_sum(num(f32::NEG_INFINITY), num(1.0)), 0);
    assert_eq!(Real32::ceil_sum(num(f32::NAN), num(1.0)), 0);
    assert_eq!(Real32::ceil_sum(num(1.0), num(f32::NAN)), 0);
    assert_eq!(Real32::ceil_sum(num(f32::MAX), num(-f32::MAX)), 0);
}

#[test]
fn ceil_sum_of_large_numbers_that_cancel() {
    let a = 18446744073709551616.0f32;
    let b = -(18446744073709551616.0f32 - 2199023255552.0f32);
    assert_eq!(Real32::ceil_sum(num(a), num(b)) as u128, 2199023255552u128.min(usize::MAX as u128));
}

#[test]
fn ceil_sum_agrees_with_single_precision_on_plain_values() {
    let values = [0.0f32, 0.25, 1.0, 1.5, 7.75, 59.5, 60.0, 110.0, 1024.125];
    for a in values {
        for b in values {
            assert_eq!(Real32::ceil_sum(num(a), num(b)), (a + b).ceil() as usize);
            assert_eq!(Real32::ceil_sum(num(a), num(-b)), (a - b).ceil() as usize);
        }
    }
}

#[test]
fn alpha_of_full_and_half_coverage() {
    assert_eq!(num(1.0).alpha(), 255);
    assert_eq!(num(0.5).alpha(), 128);
    assert_eq!(num(0.25).alpha(), 64);
    assert_eq!(num(0.0).alpha(), 0);
}

#[test]
fn alpha_rounds_to_nearest() {
    assert_eq!(num(1.0 / 255.0).alpha(), 1);
    assert_eq!(num(0.001).alpha(), 0);
    assert_eq!(num(0.002).alpha(), 1);
    assert_eq!(num(0.998).alpha(), 254);
    assert_eq!(num(0.9999).alpha(), 255);
    assert_eq!(num(f32::from_bits(1)).alpha(), 0);
}

#[test]
fn alpha_is_held_at_full() {
    assert_eq!(num(1.5).alpha(), 255);
    assert_eq!(num(1.0e20).alpha(), 255);
    assert_eq!(num(f32::INFINITY).alpha(), 255);
}

#[test]
fn alpha_of_what_is_not_positive() {
    assert_eq!(num(-0.5).alpha(), 0);
    assert_eq!(num(-0.0).alpha(), 0);
    assert_eq!(num(f32::NAN).alpha(), 0);
    assert_eq!(num(f32::NEG_INFINITY).alpha(), 0);
}

#[test]
fn alpha_never_falls_as_coverage_grows() {
    let mut last = 0u8;
    for step in 0..=4096u32 {
        let v = step as f32 / 4096.0;
        let a = num(v).alpha();
        assert!(a >= last);
        assert_eq!(a as f32, (255.0 * v as f64 + 0.5).floor() as f32);
        last = a;
    }
    assert_eq!(last, 255);
}

#[test]
fn positive_numbers() {
    assert!(num(1.0).is_positive());
    assert!(num(f32::from_bits(1)).is_positive());
    assert!(num(f32::INFINITY).is_positive());
    assert!(!num(0.0).is_positive());
    assert!(!num(-0.0).is_positive());
    assert!(!num(-1.0).is_positive());
    assert!(!num(f32::NAN).is_positive());
}

#[test]
fn floor_abs_of_finite_numbers() {
    assert_eq!(num(0.05).floor_abs(), 0);
    assert_eq!(num(6.875).floor_abs(), 6);
    assert_eq!(num(-6.875).floor_abs(), 6);
    assert_eq!(num(8192.0).floor_abs(), 8192);
    assert_eq!(num(f32::MAX).floor_abs(), 340282346638528859811704183484516925440u128);
}

#[test]
fn from_bits_keeps_the_pattern() {
    assert_eq!(Real32::from_bits(0x3F80_0000).bits, 0x3F80_0000);
    assert_eq!(Real32::from_bits(0x3F80_0000), num(1.0));
}
