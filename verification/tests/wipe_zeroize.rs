use vaz256::wipe::Zeroize;

#[test]
fn test_zeroize_u8() {
    let mut x = 0xFFu8;
    x.zeroize();
    assert_eq!(x, 0);
}

#[test]
fn test_zeroize_array() {
    let mut arr = [0xFFu8; 32];
    arr.zeroize();
    assert_eq!(arr, [0u8; 32]);
}

#[test]
fn test_zeroize_vec() {
    let mut vec = vec![0xFFu8; 32];
    vec.zeroize();
    assert!(vec.is_empty());
}

#[test]
fn test_zeroize_string() {
    let mut string = String::from("sensitive data");
    string.zeroize();
    assert!(string.is_empty());
}
