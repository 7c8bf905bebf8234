use rmathlib::d1mach::d1mach;
use rmathlib::i1mach::i1mach;

#[test]
fn lib_test_i1mach() {
    assert_eq!(i1mach(1), 5);
    assert_eq!(i1mach(2), 6);
    assert_eq!(i1mach(3), 0);
    assert_eq!(i1mach(4), 0);
    assert_eq!(i1mach(5), 32);
    assert_eq!(i1mach(6), 4);
    assert_eq!(i1mach(7), 2);
    assert_eq!(i1mach(8), 31);
    assert_eq!(i1mach(9), 2147483647);
    assert_eq!(i1mach(10), 2);
    assert_eq!(i1mach(11), 24);
    assert_eq!(i1mach(12), -125);
    assert_eq!(i1mach(13), 128);
    assert_eq!(i1mach(14), 53);
    assert_eq!(i1mach(15), -1021);
    assert_eq!(i1mach(16), 1024);
}

#[test]
fn rf_internals_test_i1mach() {
    assert_eq!(i1mach(1), 5);
    assert_eq!(i1mach(2), 6);
    assert_eq!(i1mach(3), 0);
    assert_eq!(i1mach(4), 0);
    assert_eq!(i1mach(5), 8 * std::mem::size_of::<i32>() as i32);
    assert_eq!(i1mach(6), std::mem::size_of::<i32>() as i32);
    assert_eq!(i1mach(7), 2);
    assert_eq!(i1mach(8), 8 * std::mem::size_of::<i32>() as i32 - 1);
    assert_eq!(i1mach(9), i32::MAX);
    assert_eq!(i1mach(10), f32::RADIX as i32);
    assert_eq!(i1mach(11), f32::MANTISSA_DIGITS as i32);
    assert_eq!(i1mach(12), f32::MIN_EXP);
    assert_eq!(i1mach(13), f32::MAX_EXP);
    assert_eq!(i1mach(14), f64::MANTISSA_DIGITS as i32);
    assert_eq!(i1mach(15), f64::MIN_EXP);
    assert_eq!(i1mach(16), f64::MAX_EXP);
}

#[test]
fn i1mach_outside_the_table_is_zero() {
    assert_eq!(i1mach(0), 0);
    assert_eq!(i1mach(17), 0);
    assert_eq!(i1mach(-1), 0);
    assert_eq!(i1mach(i32::MAX), 0);
    assert_eq!(i1mach(i32::MIN), 0);
}

#[test]
fn d1mach_holds_the_double_precision_constants() {
    assert_eq!(d1mach(1).to_bits(), f64::MIN_POSITIVE.to_bits());
    assert_eq!(d1mach(2).to_bits(), f64::MAX.to_bits());
    assert_eq!(d1mach(3).to_bits(), (0.5 * f64::EPSILON).to_bits());
    assert_eq!(d1mach(4).to_bits(), f64::EPSILON.to_bits());
    assert_eq!(d1mach(5).to_bits(), 0.301_029_995_663_981_2f64.to_bits());
    assert_eq!(d1mach(5).to_bits(), 2f64.log10().to_bits());
    assert_eq!(d1mach(0).to_bits(), 0);
    assert_eq!(d1mach(6).to_bits(), 0);
}

#[test]
fn d1mach_follows_from_i1mach() {
    let t = i1mach(14);
    let emin = i1mach(15);
    let emax = i1mach(16);
    assert_eq!(f64::from_bits(d1mach(1).to_bits()), 2f64.powi(emin - 1));
    assert_eq!(f64::from_bits(d1mach(3).to_bits()), 2f64.powi(-t));
    assert_eq!(f64::from_bits(d1mach(4).to_bits()), 2f64.powi(1 - t));
    assert_eq!(
        f64::from_bits(d1mach(2).to_bits()),
        2f64.powi(emax - 1) * (2.0 - 2f64.powi(1 - t))
    );
}
