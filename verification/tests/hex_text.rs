use vaz256::hex::{decode, encode, FromHexError};

#[test]
fn test_encode() {
    assert_eq!(encode(&[0x42, 0x46]), "4246");
    assert_eq!(encode(&[0xff, 0x00, 0xab]), "ff00ab");
}

#[test]
fn test_decode() {
    assert_eq!(decode("4246").unwrap(), vec![0x42, 0x46]);
    assert_eq!(decode("ff00ab").unwrap(), vec![0xff, 0x00, 0xab]);
    assert_eq!(decode("FF00AB").unwrap(), vec![0xff, 0x00, 0xab]);
}

#[test]
fn test_invalid_length() {
    assert!(matches!(
        decode("0").unwrap_err(),
        FromHexError::InvalidStringLength
    ));
}

#[test]
fn test_invalid_character() {
    assert!(matches!(
        decode("0g").unwrap_err(),
        FromHexError::InvalidHexCharacter { c: 'g', .. }
    ));
}

#[test]
fn test_hex_roundtrip_bytes() {
    let data: Vec<u8> = (0u16..256).map(|b| b as u8).collect();
    let text = encode(&data);
    assert_eq!(text.len(), 512);
    assert_eq!(decode(&text).unwrap(), data);
    let upper = text.to_uppercase();
    assert_eq!(decode(&upper).unwrap(), data);
}
