use printer_core::crc::crc16_ccitt;
use printer_core::protocol::{encode_command, Command, CommandQueueStep, Error, Message, Parser};
use printer_core::stuffing::SYNC_BYTE;

/// A frame `SYNC | LEN | SEQ | CMD | payload | CRC` built by hand.
fn build_test_frame(seq: u8, command_id: u8, payload: &[u8]) -> Vec<u8> {
    let msg_len = 1 + 1 + payload.len() + 2;
    let mut frame = Vec::with_capacity(msg_len + 1);
    frame.push(SYNC_BYTE);
    frame.push(msg_len as u8);
    frame.push(seq);
    frame.push(command_id);
    frame.extend_from_slice(payload);
    let crc = crc16_ccitt(&frame[1..], msg_len - 1);
    frame.extend_from_slice(&crc.to_be_bytes());
    frame
}

#[test]
fn test_parse_get_config() {
    let frame = build_test_frame(1, 0x02, &[]);
    let parser = Parser::new();
    let result = parser.parse(&frame);
    assert!(result.is_ok());
    let (msg, consumed) = result.unwrap().unwrap();
    assert_eq!(consumed, frame.len());
    match msg {
        Message::Command(Command::GetConfig) => {}
        _ => panic!("Incorrect message parsed"),
    }
}

#[test]
fn test_parse_queue_step() {
    let payload = [0x00, 0x00, 0x27, 0x10, 0x00, 0x01, 0x00, 0x00];
    let frame = build_test_frame(2, 0x10, &payload);
    let parser = Parser::new();
    let (msg, consumed) = parser.parse(&frame).unwrap().unwrap();
    assert_eq!(consumed, frame.len());
    match msg {
        Message::Command(Command::QueueStep(qs)) => {
            assert_eq!(qs, CommandQueueStep { interval_ticks: 10000, count: 1, add: 0 });
        }
        _ => panic!("Incorrect message parsed"),
    }
}

#[test]
fn test_parse_with_leading_noise() {
    let frame = build_test_frame(3, 0x03, &[]);
    let mut buffer = vec![0x00, 0x01, 0x02, 0x03];
    buffer.extend_from_slice(&frame);
    let parser = Parser::new();
    let (msg, consumed) = parser.parse(&buffer).unwrap().unwrap();
    assert_eq!(consumed, buffer.len());
    match msg {
        Message::Command(Command::GetStatus) => {}
        _ => panic!("Incorrect message parsed"),
    }
}

#[test]
fn test_parse_multiple_messages() {
    let frame1 = build_test_frame(4, 0x02, &[]);
    let frame2 = build_test_frame(5, 0x03, &[]);
    let mut buffer = Vec::new();
    buffer.extend_from_slice(&frame1);
    buffer.extend_from_slice(&frame2);
    let parser = Parser::new();
    let (msg1, consumed1) = parser.parse(&buffer).unwrap().unwrap();
    assert_eq!(consumed1, frame1.len());
    assert!(matches!(msg1, Message::Command(Command::GetConfig)));
    let (msg2, consumed2) = parser.parse(&buffer[consumed1..]).unwrap().unwrap();
    assert_eq!(consumed2, frame2.len());
    assert!(matches!(msg2, Message::Command(Command::GetStatus)));
}

#[test]
fn test_incomplete_frame_returns_none() {
    let frame = build_test_frame(6, 0x02, &[]);
    let parser = Parser::new();
    let result = parser.parse(&frame[..frame.len() - 1]);
    assert!(result.is_ok());
    assert!(result.unwrap().is_none());
}

#[test]
fn test_bad_crc_returns_err() {
    let mut frame = build_test_frame(7, 0x02, &[]);
    let last_byte_idx = frame.len() - 1;
    frame[last_byte_idx] ^= 0xFF;
    let parser = Parser::new();
    let result = parser.parse(&frame);
    assert!(result.is_err());
    let (err, consumed) = result.unwrap_err();
    assert_eq!(err, Error::InvalidCrc);
    assert_eq!(consumed, 1);
}

#[test]
fn buffer_without_sync_waits_for_more() {
    let buffer = vec![0x00, 0x01, 0x02, 0x03, 0x04];
    let parser = Parser::new();
    assert_eq!(parser.parse(&buffer), Ok(None));
}

#[test]
fn corrupted_get_config_frame_is_rejected_without_a_spurious_message() {
    let mut frame = build_test_frame(9, 0x02, &[]);
    frame[3] ^= 0x01;
    let parser = Parser::new();
    assert_eq!(parser.parse(&frame), Err((Error::InvalidCrc, 1)));
    // The rest holds no sync byte: no spurious message, more bytes are needed.
    let rest = &frame[1..];
    assert_eq!(parser.parse(rest), Ok(None));
}

#[test]
fn empty_buffer_waits_for_more() {
    let parser = Parser::new();
    assert_eq!(parser.parse(&[]), Ok(None));
}

#[test]
fn lone_sync_byte_waits_for_more() {
    let parser = Parser::new();
    assert_eq!(parser.parse(&[SYNC_BYTE]), Ok(None));
}

#[test]
fn too_short_length_field_is_rejected() {
    let parser = Parser::new();
    assert_eq!(parser.parse(&[0x11, SYNC_BYTE, 3, 0, 0, 0, 0]), Err((Error::IncompleteFrame, 2)));
}

#[test]
fn short_queue_step_payload_is_invalid() {
    let frame = build_test_frame(1, 0x10, &[0, 0, 1]);
    let parser = Parser::new();
    assert_eq!(parser.parse(&frame), Err((Error::InvalidPayload, 1)));
}

#[test]
fn parse_set_outputs_and_unknown() {
    let parser = Parser::new();
    let f = build_test_frame(1, 0x21, &[7, 1]);
    assert_eq!(
        parser.parse(&f),
        Ok(Some((Message::Command(Command::SetDigitalOut { pin: 7, value: 1 }), f.len())))
    );
    let f = build_test_frame(1, 0x20, &[3, 0x12, 0x34]);
    assert_eq!(
        parser.parse(&f),
        Ok(Some((Message::Command(Command::SetPwmOut { pin: 3, value: 0x1234 }), f.len())))
    );
    let f = build_test_frame(1, 0x55, &[9, 8]);
    assert_eq!(
        parser.parse(&f),
        Ok(Some((Message::Command(Command::Unknown(0x55, &[9, 8])), f.len())))
    );
    let f = build_test_frame(1, 0x01, b"v1");
    assert_eq!(
        parser.parse(&f),
        Ok(Some((Message::Command(Command::Identify { dict_version: b"v1" }), f.len())))
    );
}

#[test]
fn encoded_commands_parse_back() {
    let parser = Parser::new();
    let cmds = [
        Command::GetConfig,
        Command::GetStatus,
        Command::QueueStep(CommandQueueStep { interval_ticks: 0x1234_5678, count: 513, add: -2 }),
        Command::SetDigitalOut { pin: 0x7E, value: 0x7D },
        Command::SetPwmOut { pin: 2, value: 65535 },
        Command::Identify { dict_version: b"abc" },
        Command::Unknown(0x40, &[1, 2, 3]),
    ];
    for (i, c) in cmds.iter().enumerate() {
        let mut buf = Vec::new();
        assert_eq!(encode_command(i as u8, c, &mut buf), Ok(()));
        assert_eq!(parser.parse(&buf), Ok(Some((Message::Command(*c), buf.len()))));
    }
}

#[test]
fn encoded_queue_step_is_big_endian() {
    let mut buf = Vec::new();
    let c = Command::QueueStep(CommandQueueStep { interval_ticks: 10000, count: 1, add: -1 });
    encode_command(2, &c, &mut buf).unwrap();
    assert_eq!(buf, build_test_frame(2, 0x10, &[0x00, 0x00, 0x27, 0x10, 0x00, 0x01, 0xFF, 0xFF]));
}

#[test]
fn oversized_command_is_refused() {
    let big = vec![0u8; 252];
    let mut buf = vec![1, 2];
    let r = encode_command(0, &Command::Identify { dict_version: &big }, &mut buf);
    assert_eq!(r, Err(Error::BufferTooSmall));
    assert_eq!(buf, vec![1, 2]);
    let fits = vec![0u8; 251];
    assert_eq!(encode_command(0, &Command::Identify { dict_version: &fits }, &mut buf), Ok(()));
    assert_eq!(buf.len(), 2 + 1 + 1 + 1 + 252 + 2);
}
