//! Hexadecimal text encoding: lowercase output, case-insensitive input,
//! with exact error reporting for odd lengths and non-hex characters.

use vstd::prelude::*;
use vstd::string::*;

verus! {

/// Error type for hexadecimal decoding.
#[derive(Debug, Clone, PartialEq, Eq)]
pub enum FromHexError {
    /// Invalid character encountered.
    InvalidHexCharacter { c: char, index: usize },
    /// Invalid string length.
    InvalidStringLength,
}

/// b is the ASCII code of a hex digit (either case).
pub open spec fn is_hex_digit(b: u8) -> bool {
    (48 <= b && b <= 57) || (97 <= b && b <= 102) || (65 <= b && b <= 70)
}

/// Value of the hex digit with ASCII code b.
pub open spec fn nibble_of(b: u8) -> u8 {
    if 48 <= b && b <= 57 {
        (b - 48) as u8
    } else if 97 <= b && b <= 102 {
        (b - 87) as u8
    } else if 65 <= b && b <= 70 {
        (b - 55) as u8
    } else {
        0
    }
}

/// ASCII code of the lowercase hex digit for a nibble value in [0, 16).
pub open spec fn hex_digit(n: int) -> u8 {
    if n < 10 {
        (48 + n) as u8
    } else {
        (87 + n) as u8
    }
}

/// The ASCII bytes of the lowercase hex encoding of data.
pub open spec fn hex_bytes(data: Seq<u8>) -> Seq<u8> {
    Seq::new(
        2 * data.len(),
        |i: int|
            if i % 2 == 0 {
                hex_digit((data[i / 2] / 16) as int)
            } else {
                hex_digit((data[i / 2] % 16) as int)
            },
    )
}

/// The bytes spelled by an even-length sequence of hex-digit codes.
pub open spec fn unhex_bytes(s: Seq<u8>) -> Seq<u8> {
    Seq::new(s.len() / 2, |i: int| (nibble_of(s[2 * i]) * 16 + nibble_of(s[2 * i + 1])) as u8)
}

/// Every byte of s is the ASCII code of a hex digit.
pub open spec fn all_hex(s: Seq<u8>) -> bool {
    forall|i: int| 0 <= i < s.len() ==> is_hex_digit(#[trigger] s[i])
}

/// Relies on String::from_utf8: bytes below 128 decode to the string whose
/// characters carry exactly those code points.
#[verifier::external_body]
fn string_from_ascii(v: Vec<u8>) -> (r: String)
    requires
        forall|i: int| 0 <= i < v@.len() ==> v@[i] < 128,
    ensures
        r@.len() == v@.len(),
        forall|i: int| 0 <= i < r@.len() ==> (#[trigger] r@[i]) as u32 == v@[i] as u32,
{
    match String::from_utf8(v) {
        Ok(s) => s,
        Err(_) => String::new(),
    }
}

/// Encodes bytes as a lowercase hex string, two characters per byte.
pub fn encode(data: &[u8]) -> (r: String)
    ensures
        r@.len() == 2 * data@.len(),
        forall|i: int|
            0 <= i < r@.len() ==> (#[trigger] r@[i]) as u32 == hex_bytes(data@)[i] as u32,
        forall|i: int| 0 <= i < r@.len() ==> ((#[trigger] r@[i]) as u32) < 128,
{
    let n: usize = data.len();
    let mut codes: Vec<u8> = Vec::new();
    let mut i: usize = 0;
    while i < n
        invariant
            n == data@.len(),
            0 <= i <= n,
            codes@.len() == 2 * i,
            forall|j: int| 0 <= j < 2 * i ==> codes@[j] == hex_bytes(data@)[j],
            forall|j: int| 0 <= j < 2 * i ==> codes@[j] < 128,
        decreases n - i,
    {
        let b: u8 = data[i];
        let hi: u8 = b / 16;
        let lo: u8 = b % 16;
        let hc: u8 = if hi < 10 { 48 + hi } else { 87 + hi };
        let lc: u8 = if lo < 10 { 48 + lo } else { 87 + lo };
        codes.push(hc);
        codes.push(lc);
        i += 1;
    }
    string_from_ascii(codes)
}

/// Value of the hex digit with code c, or the exact error the decoder reports.
fn decode_nibble(c: u8) -> (r: Result<u8, FromHexError>)
    ensures
        is_hex_digit(c) ==> r == Ok::<u8, FromHexError>(nibble_of(c)),
        !is_hex_digit(c) ==> (match r {
            Err(FromHexError::InvalidHexCharacter { c: cc, index }) => cc as u32 == c as u32
                && index == 0,
            _ => false,
        }),
{
    if 48 <= c && c <= 57 {
        Ok(c - 48)
    } else if 97 <= c && c <= 102 {
        Ok(c - 87)
    } else if 65 <= c && c <= 70 {
        Ok(c - 55)
    } else {
        Err(FromHexError::InvalidHexCharacter { c: c as char, index: 0 })
    }
}

/// Decodes a hex string into bytes. Fails on odd length, and on the first
/// character that is not a hex digit.
pub fn decode(data: &str) -> (r: Result<Vec<u8>, FromHexError>)
    ensures
        data.spec_bytes().len() % 2 != 0 ==> r == Err::<Vec<u8>, FromHexError>(
            FromHexError::InvalidStringLength,
        ),
        data.spec_bytes().len() % 2 == 0 && all_hex(data.spec_bytes()) ==> (match r {
            Ok(v) => v@ == unhex_bytes(data.spec_bytes()),
            Err(_) => false,
        }),
        data.spec_bytes().len() % 2 == 0 && !all_hex(data.spec_bytes()) ==> (match r {
            Err(FromHexError::InvalidHexCharacter { c, index }) => index == 0 && (exists|k: int|
                0 <= k < data.spec_bytes().len()
                    && !is_hex_digit(#[trigger] data.spec_bytes()[k])
                    && c as u32 == data.spec_bytes()[k] as u32
                    && (forall|j: int| 0 <= j < k ==> is_hex_digit(#[trigger] data.spec_bytes()[j]))),
            _ => false,
        }),
{
    let bytes: &[u8] = data.as_bytes();
    let n: usize = bytes.len();
    if n % 2 != 0 {
        return Err(FromHexError::InvalidStringLength);
    }
    let mut out: Vec<u8> = Vec::new();
    let mut i: usize = 0;
    while i < n / 2
        invariant
            bytes@ == data.spec_bytes(),
            n == bytes@.len(),
            n % 2 == 0,
            0 <= i <= n / 2,
            out@.len() == i,
            forall|j: int| 0 <= j < 2 * i ==> is_hex_digit(#[trigger] bytes@[j]),
            forall|j: int| 0 <= j < i ==> out@[j] == unhex_bytes(bytes@)[j],
        decreases n / 2 - i,
    {
        let hi: u8 = match decode_nibble(bytes[2 * i]) {
            Ok(v) => v,
            Err(e) => {
                proof {
                    assert(!is_hex_digit(bytes@[2 * i]));
                }
                return Err(e);
            },
        };
        let lo: u8 = match decode_nibble(bytes[2 * i + 1]) {
            Ok(v) => v,
            Err(e) => {
                proof {
                    assert(!is_hex_digit(bytes@[2 * i + 1]));
                }
                return Err(e);
            },
        };
        out.push(hi * 16 + lo);
        i += 1;
    }
    proof {
        assert(out@ =~= unhex_bytes(bytes@));
    }
    Ok(out)
}

/// Round-trip law: decoding the hex encoding of any byte sequence gives back
/// exactly that sequence, and the encoding is always well-formed hex of even
/// length.
pub proof fn lemma_hex_round_trip(data: Seq<u8>)
    ensures
        hex_bytes(data).len() % 2 == 0,
        all_hex(hex_bytes(data)),
        unhex_bytes(hex_bytes(data)) == data,
{
    assert forall|i: int| 0 <= i < hex_bytes(data).len() implies is_hex_digit(
        #[trigger] hex_bytes(data)[i],
    ) by {
        let b = data[i / 2];
        assert(b / 16 < 16 && b % 16 < 16);
    }
    assert forall|i: int| 0 <= i < data.len() implies unhex_bytes(hex_bytes(data))[i] == data[i] by {
        let b = data[i];
        assert(hex_bytes(data)[2 * i] == hex_digit((b / 16) as int));
        assert((2 * i + 1) / 2 == i && (2 * i + 1) % 2 == 1);
        assert(hex_bytes(data)[2 * i + 1] == hex_digit((b % 16) as int));
        assert(nibble_of(hex_digit((b / 16) as int)) == b / 16);
        assert(nibble_of(hex_digit((b % 16) as int)) == b % 16);
        assert(b / 16 * 16 + b % 16 == b);
    }
    assert(unhex_bytes(hex_bytes(data)) =~= data);
}

} // verus!
