use printer_core::codec::KlipperCodec;
use printer_core::protocol::{parse_command, Command, CommandQueueStep, Error};
use printer_core::stuffing::{escape, unescape};

fn roundtrip(payload: &[u8]) {
    let mut codec = KlipperCodec::new();
    let mut buffer = Vec::new();
    codec.encode(payload, &mut buffer).unwrap();
    let decoded = codec.decode(&mut buffer).unwrap().unwrap();
    assert_eq!(decoded, payload.to_vec());
    assert!(buffer.is_empty(), "Buffer should be empty after decoding a full frame");
}

#[test]
fn roundtrip_get_config() {
    roundtrip(&[0x00]);
}

#[test]
fn roundtrip_message_with_escapable_bytes() {
    roundtrip(b"G1 X\x7E\x7D F3000");
}

#[test]
fn roundtrip_empty_and_all_bytes() {
    roundtrip(&[]);
    let all: Vec<u8> = (0u8..=120).collect();
    roundtrip(&all);
}

#[test]
fn encoded_frame_layout() {
    let mut codec = KlipperCodec::new();
    let mut buffer = vec![0xAA];
    codec.encode(&[0x01, 0x7E], &mut buffer).unwrap();
    let crc = KlipperCodec::crc8_atm(&[0x01, 0x7E]);
    assert_eq!(buffer, vec![0xAA, 0x7E, 3, crc, 0x01, 0x7D, 0x5E]);
}

#[test]
fn oversized_payload_is_refused() {
    let mut codec = KlipperCodec::new();
    let mut buffer = Vec::new();
    assert_eq!(codec.encode(&[0u8; 255], &mut buffer), Err(Error::BufferTooSmall));
    assert!(buffer.is_empty());
    assert_eq!(codec.encode(&[0u8; 254], &mut buffer), Ok(()));
    assert_eq!(buffer[1], 255);
    // The length field counts bytes before stuffing.
    let mut other = Vec::new();
    assert_eq!(codec.encode(&[0x7E; 254], &mut other), Ok(()));
    assert_eq!(other[1], 255);
    assert_eq!(other.len(), 3 + 2 * 254);
    assert_eq!(codec.decode(&mut other), Ok(Some(vec![0x7E; 254])));
}

#[test]
fn decode_incomplete_frame_returns_none() {
    let mut codec = KlipperCodec::new();
    let mut buffer = vec![0x7E, 0x0A, 0x00, 0x01, 0x02, 0x03];
    let result = codec.decode(&mut buffer).unwrap();
    assert!(result.is_none());
    assert_eq!(buffer, vec![0x7E, 0x0A, 0x00, 0x01, 0x02, 0x03]);
}

#[test]
fn decode_bad_crc_returns_err() {
    let mut codec = KlipperCodec::new();
    let mut buffer = Vec::new();
    codec.encode(&[0x00], &mut buffer).unwrap();
    buffer[2] = buffer[2].wrapping_add(1);
    let frame = buffer.clone();
    let result = codec.decode(&mut buffer);
    assert_eq!(result, Err(Error::InvalidCrc));
    // Only the sync byte is dropped; no further frame is found in the rest.
    assert_eq!(buffer, frame[1..].to_vec());
    assert_eq!(codec.decode(&mut buffer), Ok(None));
    assert!(buffer.is_empty());
}

#[test]
fn decode_stream_with_leading_noise() {
    let mut codec = KlipperCodec::new();
    let mut buffer = vec![0xDE, 0xAD, 0xBE, 0xEF];
    codec.encode(&[0x04, 0x05], &mut buffer).unwrap();
    let decoded = codec.decode(&mut buffer).unwrap().unwrap();
    assert_eq!(decoded, vec![0x04, 0x05]);
}

#[test]
fn decode_without_sync_clears_the_buffer() {
    let mut codec = KlipperCodec::new();
    let mut buffer = vec![1, 2, 3];
    assert_eq!(codec.decode(&mut buffer), Ok(None));
    assert!(buffer.is_empty());
}

#[test]
fn decode_waits_for_escaped_bytes() {
    let mut codec = KlipperCodec::new();
    // Two payload bytes announced, one available after unstuffing.
    let mut buffer = vec![0x7E, 3, 0, 0x7D, 9];
    assert_eq!(codec.decode(&mut buffer), Ok(None));
    assert_eq!(buffer, vec![0x7E, 3, 0, 0x7D, 9]);
    // A zero length field is refused and only the sync byte dropped.
    let mut zero = vec![0x7E, 0, 1, 2];
    assert_eq!(codec.decode(&mut zero), Err(Error::IncompleteFrame));
    assert_eq!(zero, vec![0, 1, 2]);
}

#[test]
fn decode_two_frames_in_turn() {
    let mut codec = KlipperCodec::new();
    let mut buffer = Vec::new();
    codec.encode(&[1], &mut buffer).unwrap();
    codec.encode(&[2, 0x7D], &mut buffer).unwrap();
    assert_eq!(codec.decode(&mut buffer), Ok(Some(vec![1])));
    assert_eq!(codec.decode(&mut buffer), Ok(Some(vec![2, 0x7D])));
    assert!(buffer.is_empty());
}

#[test]
fn stuffing_round_trip_and_form() {
    let p = [0x10, 0x7E, 0x20, 0x7D, 0x7F];
    let mut s = Vec::new();
    escape(&p, &mut s);
    assert_eq!(s, vec![0x10, 0x7D, 0x5E, 0x20, 0x7D, 0x5D, 0x7F]);
    assert_eq!(unescape(&s), Some(p.to_vec()));
    assert_eq!(unescape(&[1, 0x7D]), None);
    assert_eq!(unescape(&[]), Some(vec![]));
}

#[test]
fn typed_commands_round_trip_through_the_codec() {
    let mut codec = KlipperCodec::new();
    let cmds = [
        Command::GetConfig,
        Command::QueueStep(CommandQueueStep { interval_ticks: 0x7E7D_0001, count: 0x7E7E, add: -32768 }),
        Command::SetPwmOut { pin: 0x7D, value: 0x7E00 },
        Command::Identify { dict_version: b"~}~" },
    ];
    for c in cmds.iter() {
        let mut buffer = Vec::new();
        codec.encode_command(c, &mut buffer).unwrap();
        let payload = codec.decode(&mut buffer).unwrap().unwrap();
        assert!(buffer.is_empty());
        assert_eq!(parse_command(&payload), Some(*c));
    }
}

#[test]
fn decode_resynchronises_inside_a_corrupted_frame() {
    let mut codec = KlipperCodec::new();
    let mut good = Vec::new();
    codec.encode(&[0x42], &mut good).unwrap();
    // A corrupted frame whose body carries a complete good frame.
    let mut buffer = vec![0x7E, (good.len() + 1) as u8, 0x00];
    buffer.extend_from_slice(&good);
    let crc_of_body = KlipperCodec::crc8_atm(&good);
    buffer[2] = crc_of_body.wrapping_add(1);
    assert!(codec.decode(&mut buffer).is_err());
    assert_eq!(codec.decode(&mut buffer), Ok(Some(vec![0x42])));
}
