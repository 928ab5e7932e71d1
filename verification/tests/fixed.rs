use particle_sim::fixed::{divide_toward_zero, integer_sqrt, LIMIT, SCALE};

#[test]
fn one_is_a_thousand_and_twenty_four_units() {
    assert_eq!(SCALE, 1024);
    assert_eq!(LIMIT, 1i64 << 31);
}

#[test]
fn quotients_round_toward_zero() {
    assert_eq!(divide_toward_zero(7, 2), 3);
    assert_eq!(divide_toward_zero(-7, 2), -3);
    assert_eq!(divide_toward_zero(6, 3), 2);
    assert_eq!(divide_toward_zero(-6, 3), -2);
    assert_eq!(divide_toward_zero(0, 5), 0);
    assert_eq!(divide_toward_zero(-1, 5), 0);
    assert_eq!(divide_toward_zero(1, 5), 0);
}

#[test]
fn integer_square_roots_round_down() {
    assert_eq!(integer_sqrt(0), 0);
    assert_eq!(integer_sqrt(1), 1);
    assert_eq!(integer_sqrt(2), 1);
    assert_eq!(integer_sqrt(3), 1);
    assert_eq!(integer_sqrt(4), 2);
    assert_eq!(integer_sqrt(24), 4);
    assert_eq!(integer_sqrt(25), 5);
    assert_eq!(integer_sqrt(1_048_576), 1024);
    assert_eq!(integer_sqrt(1_048_575), 1023);
}

#[test]
fn integer_square_roots_of_large_arguments() {
    let n: u128 = (1u128 << 80) - 1;
    let r = integer_sqrt(n);
    assert_eq!(r, (1u128 << 40) - 1);
    assert!(r * r <= n && n < (r + 1) * (r + 1));
    assert_eq!(integer_sqrt(u128::MAX), u64::MAX as u128);
    assert_eq!(integer_sqrt(1u128 << 126), 1u128 << 63);
    assert_eq!(integer_sqrt((1u128 << 126) - 1), (1u128 << 63) - 1);
}

#[test]
fn quotients_of_the_extremes() {
    assert_eq!(divide_toward_zero(i128::MIN, 1), i128::MIN);
    assert_eq!(divide_toward_zero(i128::MIN, 2), -(1i128 << 126));
    assert_eq!(divide_toward_zero(i128::MIN, 3), i128::MIN / 3);
    assert_eq!(divide_toward_zero(i128::MIN, i128::MAX), -1);
    assert_eq!(divide_toward_zero(i128::MAX, i128::MAX), 1);
    assert_eq!(divide_toward_zero(i128::MIN + 1, i128::MAX), -1);
    assert_eq!(divide_toward_zero(i128::MAX, 2), (1i128 << 126) - 1);
}
