use vaz256::params::Q;
use vaz256::rounding::{decompose, make_hint, power2round, use_hint};

#[test]
fn test_power2round_reconstruction() {
    // a == a1 * 2^13 + a0 with a0 in (-2^12, 2^12], across [0, Q).
    let mut a: i32 = 0;
    while a < Q {
        let (a0, a1) = power2round(a);
        assert_eq!(a1 * 8192 + a0, a);
        assert!(-4095 <= a0 && a0 <= 4096);
        assert!(0 <= a1 && a1 <= 1023);
        a += 997;
    }
    let (a0, a1) = power2round(Q - 1);
    assert_eq!(a1 * 8192 + a0, Q - 1);
}

#[test]
fn test_decompose_reconstruction() {
    // a1 * 2 * GAMMA2 + a0 is congruent to a modulo Q, with the documented
    // bounds, across [0, Q).
    let mut a: i32 = 0;
    while a < Q {
        let (a0, a1) = decompose(a);
        assert!(0 <= a1 && a1 <= 15);
        assert!(-261888 <= a0 && a0 <= 261888);
        let recombined = (a1 as i64) * 523776 + a0 as i64;
        assert_eq!((recombined - a as i64).rem_euclid(Q as i64), 0);
        a += 991;
    }
    // The boundary bucket wraps to 0 with a negative low part.
    let (a0, a1) = decompose(Q - 1);
    assert_eq!(a1, 0);
    assert_eq!(a0, -1);
}

#[test]
fn test_hint_identity() {
    // A hint computed from a value's own decomposition is never set, so
    // applying it reconstructs the high bucket unchanged.
    let mut a: i32 = 0;
    while a < Q {
        let (a0, a1) = decompose(a);
        let hint = make_hint(a0, a1);
        assert_eq!(hint, 0);
        assert_eq!(use_hint(a, hint), a1);
        a += 911;
    }
}
