use constraint_mux::protocol::{frame_payload, framed_payload, MAX_DETECTED_PAYLOAD};

#[test]
fn frame_prefix_announces_length() {
    let payload: Vec<u8> = (0..24).collect();
    let framed = frame_payload(&payload);
    let len = u32::from_be_bytes([framed[0], framed[1], framed[2], framed[3]]) as usize;
    assert_eq!(len + 4, framed.len());
    assert_eq!(&framed[4..], &payload[..]);
    assert_eq!(&framed[..4], &[0, 0, 0, 24]);
}

#[test]
fn frame_of_long_and_empty_payloads() {
    let payload = vec![7u8; 0x1_0203];
    let framed = frame_payload(&payload);
    assert_eq!(&framed[..4], &[0, 1, 2, 3]);
    assert_eq!(framed.len(), payload.len() + 4);
    assert_eq!(frame_payload(&[]), vec![0, 0, 0, 0]);
}

#[test]
fn detected_payload_roundtrip_with_trailing_data() {
    let payload = b"consonance".to_vec();
    let mut data = frame_payload(&payload);
    assert_eq!(framed_payload(&data), Some(payload.clone()));
    data.extend_from_slice(b"trailing bytes");
    assert_eq!(framed_payload(&data), Some(payload));
}

#[test]
fn detection_rejects_bad_frames() {
    // too short
    assert_eq!(framed_payload(&[0, 0, 0, 1]), None);
    // empty payload
    assert_eq!(framed_payload(&[0, 0, 0, 0, 9]), None);
    // longer than the data
    assert_eq!(framed_payload(&[0, 0, 0, 5, 1, 2]), None);
    // text is no frame
    assert_eq!(framed_payload(b"F:440.0\n"), None);
    // too long to be a consonance message
    let big = vec![1u8; MAX_DETECTED_PAYLOAD];
    assert_eq!(framed_payload(&frame_payload(&big)), None);
    let fits = vec![1u8; MAX_DETECTED_PAYLOAD - 1];
    assert_eq!(framed_payload(&frame_payload(&fits)), Some(fits));
}
