use sensor_bridge::checksum::FrameError;
use sensor_bridge::checksum::validate_frame;
use sensor_bridge::decode::DecodeError;
use sensor_bridge::decode::decode;
use sensor_bridge::device::device_matches;
use sensor_bridge::hex::mac_string;
use sensor_bridge::hex::nibble;

fn scenario_payload() -> Vec<u8> {
    let mut p = vec![0u8; 30];
    p[0] = 0x99;
    p[1] = 0x04;
    p[2] = 0x05;
    // temperature raw 325
    p[3] = 0x01;
    p[4] = 0x45;
    // humidity raw 10000
    p[5] = 0x27;
    p[6] = 0x10;
    // pressure raw 50000
    p[7] = 0xc3;
    p[8] = 0x50;
    // power field raw 0x0b1e (2846); top 11 bits 88
    p[15] = 0x0b;
    p[16] = 0x1e;
    p[20] = 0x01;
    p[21] = 0x02;
    p[22] = 0x03;
    p[23] = 0x04;
    p[24] = 0x05;
    p[25] = 0x06;
    p
}

#[test]
fn nibble_digits() {
    assert_eq!(nibble(b'0'), Some(0));
    assert_eq!(nibble(b'9'), Some(9));
    assert_eq!(nibble(b'A'), Some(10));
    assert_eq!(nibble(b'F'), Some(15));
    assert_eq!(nibble(b'a'), Some(10));
    assert_eq!(nibble(b'f'), Some(15));
}

#[test]
fn nibble_extended_letter_range() {
    // the accepted range runs one letter range past conventional hex
    assert_eq!(nibble(b'G'), Some(16));
    assert_eq!(nibble(b'O'), Some(24));
    assert_eq!(nibble(b'o'), Some(24));
    assert_eq!(nibble(b'P'), None);
    assert_eq!(nibble(b'p'), None);
}

#[test]
fn nibble_rejects_markers_and_others() {
    assert_eq!(nibble(b'{'), None);
    assert_eq!(nibble(b'}'), None);
    assert_eq!(nibble(b' '), None);
    assert_eq!(nibble(b'/'), None);
    assert_eq!(nibble(0x00), None);
    assert_eq!(nibble(0xff), None);
}

#[test]
fn mac_string_unpadded_octets() {
    assert_eq!(mac_string(&[1, 2, 3, 4, 5, 6]), "1:2:3:4:5:6");
    assert_eq!(mac_string(&[0xab, 0x02, 0xff, 0x00, 0x10, 0x0a]), "ab:2:ff:0:10:a");
    assert_eq!(mac_string(&[0, 0, 0, 0, 0, 0]), "0:0:0:0:0:0");
    assert_eq!(mac_string(&[0xff, 0xff, 0xff, 0xff, 0xff, 0xfe]), "ff:ff:ff:ff:ff:fe");
}

#[test]
fn decode_reading_scenario() {
    let p = scenario_payload();
    let r = decode(&p).expect("recognized payload must decode");
    assert_eq!(r.mac, [1, 2, 3, 4, 5, 6]);
    // 325 * 0.005 degrees == 1.625 == 1625 thousandths
    assert_eq!(r.temperature, Some(1625));
    // 10000 * 0.0025 percent == 25.0 == 250000 ten-thousandths
    assert_eq!(r.humidity, Some(250_000));
    // 50000 / 1000 + 50 kPa == 100.000 kPa == 100000 Pa
    assert_eq!(r.pressure, Some(100_000));
    // 2846 >> 5 == 88; 88 / 1000 + 1.6 V == 1.688 V == 1688 mV
    assert_eq!(r.battery, Some(1688));
    assert_eq!(mac_string(&r.mac), "1:2:3:4:5:6");
}

#[test]
fn decode_scaled_values_match_formulas() {
    let r = decode(&scenario_payload()).unwrap();
    assert_eq!(r.temperature.unwrap() as f64 / 1000.0, 325.0 * 0.005);
    assert_eq!(r.humidity.unwrap() as f64 / 10_000.0, 10000.0 * 0.0025);
    assert_eq!(r.pressure.unwrap() as f64 / 1000.0, 50000.0 / 1000.0 + 50.0);
    // the fixed-point millivolt value is exact; the floating formula
    // (88 / 1000 + 1.6) itself rounds, so compare against the decimal
    assert_eq!(r.battery.unwrap() as f64 / 1000.0, 1.688);
}

#[test]
fn decode_negative_temperature() {
    let mut p = scenario_payload();
    // raw -40 (0xffd8): -0.2 degrees
    p[3] = 0xff;
    p[4] = 0xd8;
    let r = decode(&p).unwrap();
    assert_eq!(r.temperature, Some(-200));
}

#[test]
fn decode_absent_temperature() {
    let mut p = scenario_payload();
    // minimum signed 16-bit value is the absent sentinel
    p[3] = 0x80;
    p[4] = 0x00;
    let r = decode(&p).unwrap();
    assert_eq!(r.temperature, None);
    assert_eq!(r.humidity, Some(250_000));
    assert_eq!(r.pressure, Some(100_000));
    assert_eq!(r.battery, Some(1688));
}

#[test]
fn decode_absent_humidity_and_pressure() {
    let mut p = scenario_payload();
    p[5] = 0xff;
    p[6] = 0xff;
    p[7] = 0xff;
    p[8] = 0xff;
    let r = decode(&p).unwrap();
    assert_eq!(r.humidity, None);
    assert_eq!(r.pressure, None);
    assert_eq!(r.temperature, Some(1625));
}

#[test]
fn decode_absent_battery() {
    let mut p = scenario_payload();
    // top eleven bits all ones: 2047 << 5 == 0xffe0
    p[15] = 0xff;
    p[16] = 0xe0;
    let r = decode(&p).unwrap();
    assert_eq!(r.battery, None);
}

#[test]
fn decode_rejects_missing_identity() {
    let mut p = scenario_payload();
    for i in 20..26 {
        p[i] = 0xff;
    }
    assert_eq!(decode(&p), Err(DecodeError::MissingIdentity));
}

#[test]
fn decode_ignores_unrecognized_format() {
    let mut p = scenario_payload();
    p[2] = 0x03;
    assert_eq!(decode(&p), Err(DecodeError::UnrecognizedFormat));
    let short = &scenario_payload()[..29];
    assert_eq!(decode(short), Err(DecodeError::UnrecognizedFormat));
}

#[test]
fn checksum_accepts_correct_frame() {
    let p = scenario_payload();
    let mut msg = crc32fast::hash(&p).to_be_bytes().to_vec();
    msg.extend_from_slice(&p);
    let validated = validate_frame(&msg).expect("correct checksum must validate");
    assert_eq!(validated, p);
}

#[test]
fn checksum_rejects_flipped_bit() {
    let p = scenario_payload();
    let mut msg = crc32fast::hash(&p).to_be_bytes().to_vec();
    msg.extend_from_slice(&p);
    for bit in 0..8 {
        let mut corrupted = msg.clone();
        corrupted[7] ^= 1 << bit;
        assert_eq!(validate_frame(&corrupted), Err(FrameError::ChecksumMismatch));
    }
}

#[test]
fn checksum_rejects_short_frame() {
    assert_eq!(validate_frame(&[]), Err(FrameError::FrameTooShort));
    assert_eq!(validate_frame(&[1, 2, 3]), Err(FrameError::FrameTooShort));
}

#[test]
fn checksum_accepts_empty_payload() {
    let msg = crc32fast::hash(&[]).to_be_bytes().to_vec();
    let validated = validate_frame(&msg).unwrap();
    assert!(validated.is_empty());
}

#[test]
fn device_identifier_match() {
    assert!(device_matches(&"2341\n".to_string(), &"8054\n".to_string()));
    assert!(!device_matches(&"2341".to_string(), &"8054\n".to_string()));
    assert!(!device_matches(&"2341\n".to_string(), &"8055\n".to_string()));
    assert!(!device_matches(&"".to_string(), &"".to_string()));
}
