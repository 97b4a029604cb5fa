use raycast::fixed::{fx_div, fx_mul, fx_pow, fx_sqrt, isqrt_u128, tdiv_i128};
use raycast::vec3::Vec3;

const FX: i128 = 65536;

#[test]
fn truncating_division_rounds_toward_zero() {
    assert_eq!(tdiv_i128(7, 2), 3);
    assert_eq!(tdiv_i128(-7, 2), -3);
    assert_eq!(tdiv_i128(7, -2), -3);
    assert_eq!(tdiv_i128(-7, -2), 3);
}

#[test]
fn fixed_multiply_and_divide_are_exact_on_whole_numbers() {
    assert_eq!(fx_mul(3 * FX, 2 * FX), 6 * FX);
    assert_eq!(fx_mul(-3 * FX, 2 * FX), -6 * FX);
    assert_eq!(fx_div(6 * FX, 2 * FX), 3 * FX);
    assert_eq!(fx_div(FX, 2 * FX), FX / 2);
}

#[test]
fn integer_square_root() {
    assert_eq!(isqrt_u128(0), 0);
    assert_eq!(isqrt_u128(1), 1);
    assert_eq!(isqrt_u128(10), 3);
    assert_eq!(isqrt_u128(16), 4);
    assert_eq!(isqrt_u128(u128::from(u64::MAX)), 0xffff_ffff);
}

#[test]
fn fixed_square_root() {
    assert_eq!(fx_sqrt(4 * FX), 2 * FX);
    assert_eq!(fx_sqrt(9 * FX), 3 * FX);
    assert_eq!(fx_sqrt(0), 0);
}

#[test]
fn fixed_power() {
    assert_eq!(fx_pow(FX, 1000), FX);
    assert_eq!(fx_pow(FX / 2, 2), FX / 4);
    assert_eq!(fx_pow(12345, 0), FX);
    assert_eq!(fx_pow(0, 3), 0);
}

#[test]
fn vector_operations() {
    let a = Vec3 { x: FX, y: 2 * FX, z: 3 * FX };
    let b = Vec3 { x: 4 * FX, y: -5 * FX, z: 6 * FX };
    let d = a.dot(&b);
    assert_eq!(d, (4 - 10 + 18) * FX);
    let s = a.minus(&b);
    assert_eq!(s, Vec3 { x: -3 * FX, y: 7 * FX, z: -3 * FX });
    let m = Vec3 { x: 3 * FX, y: 4 * FX, z: 0 }.magnitude();
    assert_eq!(m, 5 * FX);
    let sc = a.scaled(2 * FX);
    assert_eq!(sc, Vec3 { x: 2 * FX, y: 4 * FX, z: 6 * FX });
    assert_eq!(a.negated(), Vec3 { x: -FX, y: -2 * FX, z: -3 * FX });
}
