use vaz256::params::Q;

#[test]
fn montgomery_reduce() {
    let result = vaz256::reduce::montgomery_reduce(0);
    assert_eq!(result, 0);
    let result = vaz256::reduce::montgomery_reduce(23);
    assert_eq!(result, -2635616);
}

#[test]
fn reduce32() {
    let result = vaz256::reduce::reduce32(0);
    assert_eq!(result, 0);
}

#[test]
fn caddq() {
    let result = vaz256::reduce::caddq(0);
    assert_eq!(result, 0);
    let result = vaz256::reduce::caddq(44);
    assert_eq!(result, 44);
    let result = vaz256::reduce::caddq(-123);
    assert_eq!(result, Q - 123);
}

#[test]
fn montgomery_congruence_samples() {
    // r * 2^32 must be congruent to the input modulo Q, with |r| <= Q.
    for &a in &[1i64, -1, 12345678, -987654321, 1 << 40, -(1 << 52)] {
        let r = vaz256::reduce::montgomery_reduce(a) as i64;
        assert!(r.abs() <= Q as i64);
        let lhs = ((r << 32) - a) % (Q as i64);
        assert_eq!(lhs, 0);
    }
}
