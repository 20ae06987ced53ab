use vaz256::params::Q;
use vaz256::poly::{invntt_tomont, ntt, Poly};

fn canonical(x: i64) -> i64 {
    x.rem_euclid(Q as i64)
}

#[test]
fn test_ntt_invntt_roundtrip() {
    // inverse(forward(p)), reduced, equals p scaled by the Montgomery factor
    // 2^32, for a small-coefficient p.
    let mut p = Poly::default();
    let mut seed: i64 = 12345;
    for i in 0..256 {
        seed = (seed * 1103515245 + 12345) % 2147483648;
        p.coeffs[i] = (seed % 1024) as i32 - 512;
    }
    let reference = p;
    ntt(&mut p);
    // Bring coefficients back below Q in magnitude before the inverse.
    vaz256::poly::reduce(&mut p);
    invntt_tomont(&mut p);
    for i in 0..256 {
        let expected = canonical((reference.coeffs[i] as i64) << 32);
        assert_eq!(canonical(p.coeffs[i] as i64), expected);
    }
}

#[test]
fn test_ntt_zero_fixed_point() {
    let mut p = Poly::default();
    ntt(&mut p);
    for i in 0..256 {
        assert_eq!(p.coeffs[i], 0);
    }
    invntt_tomont(&mut p);
    for i in 0..256 {
        assert_eq!(p.coeffs[i], 0);
    }
}
