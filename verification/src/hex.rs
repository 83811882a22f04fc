//! Hex-digit decoding for the frame encoding, and rendering of hardware
//! identities as metric labels.

use vstd::prelude::*;
use vstd::string::StringExecFns;

verus! {

/// The lowercase hexadecimal digit character for a value below sixteen.
pub open spec fn hex_digit(d: u8) -> char {
    seq!['0', '1', '2', '3', '4', '5', '6', '7', '8', '9', 'a', 'b', 'c', 'd', 'e', 'f'][d as int]
}

/// One byte rendered as lowercase hex without a leading zero: a single
/// digit for values below sixteen, two digits otherwise.
pub open spec fn octet_chars(b: u8) -> Seq<char> {
    if b < 16 {
        seq![hex_digit(b)]
    } else {
        seq![hex_digit(b / 16), hex_digit(b % 16)]
    }
}

/// The metric label of a six-byte hardware identity: the six octets,
/// each unpadded lowercase hex, joined by colons.
pub open spec fn mac_label(m: Seq<u8>) -> Seq<char> {
    octet_chars(m[0]) + seq![':'] + octet_chars(m[1]) + seq![':'] + octet_chars(m[2]) + seq![':']
        + octet_chars(m[3]) + seq![':'] + octet_chars(m[4]) + seq![':'] + octet_chars(m[5])
}

/// The value carried by one byte of the frame's digit encoding.
///
/// The accepted range deliberately matches the device's encoder: ASCII
/// digits, and the letter ranges `A`..=`O` and `a`..=`o`, so letters past
/// `F`/`f` yield values above fifteen.
pub open spec fn spec_nibble(b: u8) -> Option<u8> {
    if 0x30 <= b && b <= 0x39 {
        Some((b - 0x30) as u8)
    } else if 0x41 <= b && b <= 0x4f {
        Some((b - 55) as u8)
    } else if 0x61 <= b && b <= 0x6f {
        Some((b - 87) as u8)
    } else {
        None
    }
}

/// Decodes one byte of the frame's digit encoding, or reports that the
/// byte is not an accepted digit.
pub fn nibble(b: u8) -> (r: Option<u8>)
    ensures
        r == spec_nibble(b),
{
    if 0x30 <= b && b <= 0x39 {
        Some(b - 0x30)
    } else if 0x41 <= b && b <= 0x4f {
        Some(b - 55)
    } else if 0x61 <= b && b <= 0x6f {
        Some(b - 87)
    } else {
        None
    }
}

/// The one-character string for a hex digit value.
fn hex_digit_str(d: u8) -> (r: &'static str)
    requires
        d < 16,
    ensures
        r@ == seq![hex_digit(d)],
{
    proof {
        reveal_strlit("0");
        reveal_strlit("1");
        reveal_strlit("2");
        reveal_strlit("3");
        reveal_strlit("4");
        reveal_strlit("5");
        reveal_strlit("6");
        reveal_strlit("7");
        reveal_strlit("8");
        reveal_strlit("9");
        reveal_strlit("a");
        reveal_strlit("b");
        reveal_strlit("c");
        reveal_strlit("d");
        reveal_strlit("e");
        reveal_strlit("f");
    }
    if d == 0 {
        "0"
    } else if d == 1 {
        "1"
    } else if d == 2 {
        "2"
    } else if d == 3 {
        "3"
    } else if d == 4 {
        "4"
    } else if d == 5 {
        "5"
    } else if d == 6 {
        "6"
    } else if d == 7 {
        "7"
    } else if d == 8 {
        "8"
    } else if d == 9 {
        "9"
    } else if d == 10 {
        "a"
    } else if d == 11 {
        "b"
    } else if d == 12 {
        "c"
    } else if d == 13 {
        "d"
    } else if d == 14 {
        "e"
    } else {
        "f"
    }
}

/// One byte rendered as unpadded lowercase hex.
fn octet_string(b: u8) -> (r: String)
    ensures
        r@ == octet_chars(b),
{
    if b < 16 {
        hex_digit_str(b).to_owned()
    } else {
        let mut s = hex_digit_str(b / 16).to_owned();
        s.append(hex_digit_str(b % 16));
        s
    }
}

/// Renders a six-byte hardware identity as its metric label:
/// unpadded lowercase hex octets joined by colons.
pub fn mac_string(mac: &[u8; 6]) -> (r: String)
    ensures
        r@ == mac_label(mac@),
{
    proof {
        reveal_strlit(":");
    }
    let mut s = octet_string(mac[0]);
    let o1 = octet_string(mac[1]);
    let o2 = octet_string(mac[2]);
    let o3 = octet_string(mac[3]);
    let o4 = octet_string(mac[4]);
    let o5 = octet_string(mac[5]);
    s.append(":");
    s.append(o1.as_str());
    s.append(":");
    s.append(o2.as_str());
    s.append(":");
    s.append(o3.as_str());
    s.append(":");
    s.append(o4.as_str());
    s.append(":");
    s.append(o5.as_str());
    s
}

} // verus!
