use sensor_bridge::frame::FrameExtractor;
use sensor_bridge::monitor::Monitor;
use sensor_bridge::monitor::mac_key_of;
use sensor_bridge::registry::Registry;
use sensor_bridge::registry::TTL_SECONDS;
use sensor_bridge::station::FrameOutcome;
use sensor_bridge::station::Station;
use sensor_bridge::station::handle_frame;

fn reading_payload(mac: [u8; 6]) -> Vec<u8> {
    let mut p = vec![0u8; 30];
    p[0] = 0x99;
    p[1] = 0x04;
    p[2] = 0x05;
    p[3] = 0x01;
    p[4] = 0x45;
    p[5] = 0x27;
    p[6] = 0x10;
    p[7] = 0xc3;
    p[8] = 0x50;
    p[15] = 0x0b;
    p[16] = 0x1e;
    p[20..26].copy_from_slice(&mac);
    p
}

fn framed_message(payload: &[u8]) -> Vec<u8> {
    let mut msg = crc32fast::hash(payload).to_be_bytes().to_vec();
    msg.extend_from_slice(payload);
    msg
}

fn encode_frame(msg: &[u8]) -> Vec<u8> {
    let digits = b"0123456789abcdef";
    let mut f = vec![b'{'; 3];
    for b in msg {
        f.push(digits[(b >> 4) as usize]);
        f.push(digits[(b & 0x0f) as usize]);
    }
    f.extend_from_slice(b"}}}");
    f
}

fn feed(extractor: &mut FrameExtractor, bytes: &[u8]) -> Vec<Vec<u8>> {
    let mut frames = Vec::new();
    for b in bytes {
        if let Some(frame) = extractor.step(*b) {
            frames.push(frame);
        }
    }
    frames
}

#[test]
fn extractor_decodes_one_frame() {
    let msg = framed_message(&reading_payload([1, 2, 3, 4, 5, 6]));
    let stream = encode_frame(&msg);
    let mut extractor = FrameExtractor::new();
    let frames = feed(&mut extractor, &stream);
    assert_eq!(frames, vec![msg]);
}

#[test]
fn extractor_resyncs_around_garbage() {
    let msg = framed_message(&reading_payload([1, 2, 3, 4, 5, 6]));
    let mut stream = b"noise {{x} }} \x00\xff{ab".to_vec();
    stream.extend_from_slice(&encode_frame(&msg));
    stream.extend_from_slice(b"trailing {{ garbage }}");
    let mut extractor = FrameExtractor::new();
    let frames = feed(&mut extractor, &stream);
    assert_eq!(frames, vec![msg]);
}

#[test]
fn extractor_drops_frame_with_bad_digit() {
    // a marker-class byte inside the digits abandons the frame
    let stream = b"{{{0102zz0304}}}".to_vec();
    let mut extractor = FrameExtractor::new();
    let frames = feed(&mut extractor, &stream);
    assert!(frames.is_empty());
}

#[test]
fn extractor_accepts_empty_frame() {
    let mut extractor = FrameExtractor::new();
    let frames = feed(&mut extractor, b"{{{}}}");
    assert_eq!(frames, vec![Vec::<u8>::new()]);
}

#[test]
fn extractor_enforces_length_cap() {
    // 500 decoded bytes: the frame is abandoned before its close marker
    let oversize = encode_frame(&[0xaa; 500]);
    let mut extractor = FrameExtractor::new();
    assert!(feed(&mut extractor, &oversize).is_empty());
    // 499 decoded bytes still fit
    let largest = encode_frame(&[0xaa; 499]);
    let frames = feed(&mut extractor, &largest);
    assert_eq!(frames.len(), 1);
    assert_eq!(frames[0].len(), 499);
}

#[test]
fn registry_touch_latest_wins() {
    let mut registry = Registry::new();
    let key = mac_key_of(&[1, 2, 3, 4, 5, 6]);
    registry.touch(key, 100);
    registry.touch(key, 200);
    assert_eq!(registry.len(), 1);
    assert_eq!(registry.deadline_of(key), Some(200 + TTL_SECONDS));
}

#[test]
fn registry_sweep_is_strict() {
    let mut registry = Registry::new();
    let key = mac_key_of(&[1, 2, 3, 4, 5, 6]);
    registry.touch(key, 1000);
    // at the deadline the entry survives
    assert!(registry.sweep(1000 + TTL_SECONDS).is_empty());
    assert_eq!(registry.deadline_of(key), Some(1000 + TTL_SECONDS));
    // one second past the deadline it is removed
    let removed = registry.sweep(1000 + TTL_SECONDS + 1);
    assert_eq!(removed, vec![key]);
    assert_eq!(registry.deadline_of(key), None);
    assert_eq!(registry.len(), 0);
}

#[test]
fn registry_sweep_keeps_younger_entries() {
    let mut registry = Registry::new();
    let a = mac_key_of(&[1, 1, 1, 1, 1, 1]);
    let b = mac_key_of(&[2, 2, 2, 2, 2, 2]);
    registry.touch(a, 0);
    registry.touch(b, 500);
    let removed = registry.sweep(400);
    assert_eq!(removed, vec![a]);
    assert_eq!(registry.deadline_of(b), Some(500 + TTL_SECONDS));
}

#[test]
fn monitor_accepts_reading() {
    let mac = [1, 2, 3, 4, 5, 6];
    let msg = framed_message(&reading_payload(mac));
    let mut monitor = Monitor::new();
    let outcome = handle_frame(&mut monitor, &msg, 1000);
    let reading = match outcome {
        FrameOutcome::Accepted(r) => r,
        other => panic!("expected an accepted reading, got {:?}", other),
    };
    assert_eq!(reading.mac, mac);
    let key = mac_key_of(&mac);
    let q = monitor.metrics_of(key).expect("metrics must be published");
    assert_eq!(q.temperature, Some(1625));
    assert_eq!(q.humidity, Some(250_000));
    assert_eq!(q.pressure, Some(100_000));
    assert_eq!(q.battery, Some(1688));
    assert_eq!(monitor.deadline_of(key), Some(1000 + TTL_SECONDS));
}

#[test]
fn monitor_absent_field_clears_only_that_slot() {
    let mac = [1, 2, 3, 4, 5, 6];
    let mut monitor = Monitor::new();
    let key = mac_key_of(&mac);

    let first = framed_message(&reading_payload(mac));
    handle_frame(&mut monitor, &first, 1000);
    assert_eq!(monitor.metrics_of(key).unwrap().temperature, Some(1625));

    let mut absent = reading_payload(mac);
    absent[3] = 0x80;
    absent[4] = 0x00;
    let second = framed_message(&absent);
    let outcome = handle_frame(&mut monitor, &second, 1001);
    assert!(matches!(outcome, FrameOutcome::Accepted(_)));
    let q = monitor.metrics_of(key).unwrap();
    assert_eq!(q.temperature, None);
    assert_eq!(q.humidity, Some(250_000));
    assert_eq!(q.pressure, Some(100_000));
    assert_eq!(q.battery, Some(1688));
    assert_eq!(monitor.deadline_of(key), Some(1001 + TTL_SECONDS));
}

#[test]
fn monitor_rejects_missing_identity() {
    let msg = framed_message(&reading_payload([0xff; 6]));
    let mut monitor = Monitor::new();
    let outcome = handle_frame(&mut monitor, &msg, 1000);
    assert_eq!(outcome, FrameOutcome::MissingIdentity);
    let key = mac_key_of(&[0xff; 6]);
    assert_eq!(monitor.metrics_of(key), None);
    assert_eq!(monitor.deadline_of(key), None);
}

#[test]
fn monitor_drops_bad_checksum_without_state_change() {
    let mut msg = framed_message(&reading_payload([1, 2, 3, 4, 5, 6]));
    msg[10] ^= 0x40;
    let mut monitor = Monitor::new();
    assert_eq!(handle_frame(&mut monitor, &msg, 1000), FrameOutcome::ChecksumMismatch);
    assert_eq!(monitor.deadline_of(mac_key_of(&[1, 2, 3, 4, 5, 6])), None);
}

#[test]
fn monitor_reports_short_and_unrecognized_frames() {
    let mut monitor = Monitor::new();
    assert_eq!(handle_frame(&mut monitor, &[1, 2, 3], 0), FrameOutcome::TooShort);
    let mut other = reading_payload([1, 2, 3, 4, 5, 6]);
    other[0] = 0x98;
    let msg = framed_message(&other);
    assert_eq!(handle_frame(&mut monitor, &msg, 0), FrameOutcome::Unrecognized);
    assert_eq!(monitor.deadline_of(mac_key_of(&[1, 2, 3, 4, 5, 6])), None);
}

#[test]
fn monitor_expiry_clears_metrics_with_entry() {
    let mac = [1, 2, 3, 4, 5, 6];
    let key = mac_key_of(&mac);
    let mut monitor = Monitor::new();
    let msg = framed_message(&reading_payload(mac));
    handle_frame(&mut monitor, &msg, 1000);

    // shortly before the deadline: entry and metrics both live
    assert!(monitor.sweep(1000 + TTL_SECONDS - 1).is_empty());
    assert!(monitor.deadline_of(key).is_some());
    assert!(monitor.metrics_of(key).is_some());

    // past the deadline: entry and all metrics gone in one step
    let removed = monitor.sweep(1000 + TTL_SECONDS + 1);
    assert_eq!(removed, vec![key]);
    assert_eq!(monitor.deadline_of(key), None);
    assert_eq!(monitor.metrics_of(key), None);
}

#[test]
fn station_end_to_end() {
    let mac = [1, 2, 3, 4, 5, 6];
    let key = mac_key_of(&mac);
    let msg = framed_message(&reading_payload(mac));
    let mut stream = b"(boot noise) {{".to_vec();
    stream.extend_from_slice(b"]");
    stream.extend_from_slice(&encode_frame(&msg));
    stream.extend_from_slice(b"more noise");

    let mut station = Station::new();
    let mut outcomes = Vec::new();
    for b in &stream {
        if let Some(outcome) = station.ingest_byte(*b, 2000) {
            outcomes.push(outcome);
        }
    }
    assert_eq!(outcomes.len(), 1);
    assert!(matches!(outcomes[0], FrameOutcome::Accepted(_)));
    let q = station.metrics_of(key).unwrap();
    assert_eq!(q.temperature, Some(1625));
    assert_eq!(station.deadline_of(key), Some(2000 + TTL_SECONDS));

    let removed = station.sweep(2000 + TTL_SECONDS + 1);
    assert_eq!(removed, vec![key]);
    assert_eq!(station.metrics_of(key), None);
    assert_eq!(station.deadline_of(key), None);
}
