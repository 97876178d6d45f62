use snr9816::error::DriverError;
use snr9816::frame::{encode, encode_control, CMD_PAUSE, CMD_SPEAK, CMD_STATUS, CMD_STOP, CODEC_LEGACY};

#[test]
fn speech_frame_has_head_length_command_codec_payload() {
    let frame = encode(0x01, Some(0x01), b"hi").unwrap();
    assert_eq!(frame, vec![0xFD, 0x00, 0x04, 0x01, 0x01, b'h', b'i']);
}

#[test]
fn empty_payload_is_a_legal_speech_frame() {
    let frame = encode(CMD_SPEAK, Some(CODEC_LEGACY), &[]).unwrap();
    assert_eq!(frame, vec![0xFD, 0x00, 0x02, 0x01, 0x01]);
}

#[test]
fn control_frames_are_four_bytes_with_length_one() {
    assert_eq!(encode(CMD_STATUS, None, &[]).unwrap(), vec![0xFD, 0x00, 0x01, 0x21]);
    assert_eq!(encode(CMD_PAUSE, None, &[]).unwrap(), vec![0xFD, 0x00, 0x01, 0x03]);
    assert_eq!(encode(CMD_STOP, None, &[]).unwrap(), vec![0xFD, 0x00, 0x01, 0x02]);
    assert_eq!(encode_control(CMD_STATUS), vec![0xFD, 0x00, 0x01, 0x21]);
    assert_eq!(encode_control(CMD_PAUSE), vec![0xFD, 0x00, 0x01, 0x03]);
    assert_eq!(encode_control(CMD_STOP), vec![0xFD, 0x00, 0x01, 0x02]);
}

#[test]
fn length_is_split_big_endian() {
    let payload = vec![0xAAu8; 300];
    let frame = encode(0x01, Some(0x01), &payload).unwrap();
    assert_eq!(frame.len(), 305);
    assert_eq!(&frame[..5], &[0xFD, 0x01, 0x2E, 0x01, 0x01]);
    assert_eq!(&frame[5..], &payload[..]);
    let payload = vec![0x55u8; 254];
    let frame = encode(0x01, Some(0x01), &payload).unwrap();
    assert_eq!(&frame[..3], &[0xFD, 0x01, 0x00]);
    let payload = vec![0x55u8; 253];
    let frame = encode(0x01, Some(0x01), &payload).unwrap();
    assert_eq!(&frame[..3], &[0xFD, 0x00, 0xFF]);
}

#[test]
fn length_field_counts_every_byte_after_it() {
    for size in [0usize, 1, 2, 127, 128, 255, 256, 1000, 4096, 65533] {
        let payload = vec![0x41u8; size];
        let frame = encode(0x01, Some(0x01), &payload).unwrap();
        let length = (frame[1] as usize) * 256 + frame[2] as usize;
        assert_eq!(length, frame.len() - 3);
        assert_eq!(length, size + 2);
    }
}

#[test]
fn largest_payload_fills_the_length_field() {
    let payload = vec![0x41u8; 65533];
    let frame = encode(0x01, Some(0x01), &payload).unwrap();
    assert_eq!(&frame[..5], &[0xFD, 0xFF, 0xFF, 0x01, 0x01]);
    assert_eq!(frame.len(), 65538);
}

#[test]
fn payload_past_the_length_field_is_refused() {
    let payload = vec![0x41u8; 65534];
    assert_eq!(encode(0x01, Some(0x01), &payload), Err(DriverError::EncodingTooLarge));
    let payload = vec![0x41u8; 70000];
    assert_eq!(encode(0x01, Some(0x01), &payload), Err(DriverError::EncodingTooLarge));
    assert_eq!(encode(0x02, None, &payload), Err(DriverError::EncodingTooLarge));
}

#[test]
fn control_frame_leaves_a_payload_out() {
    assert_eq!(encode(0x02, None, b"ignored").unwrap(), vec![0xFD, 0x00, 0x01, 0x02]);
}

#[test]
fn errors_describe_themselves() {
    assert_eq!(DriverError::EncodingTooLarge.message(), "payload too large for one frame");
    assert_eq!(DriverError::ChannelUnavailable.message(), "serial channel unavailable");
    assert_eq!(DriverError::DeviceUnresponsive.message(), "device did not become idle");
    assert!(DriverError::DeviceUnresponsive.is_retryable());
    assert!(!DriverError::EncodingTooLarge.is_retryable());
    assert!(!DriverError::ChannelUnavailable.is_retryable());
}
