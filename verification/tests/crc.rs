//! CRC-16/Modbus.

use mbshark2::protocol::crc::{append_crc, crc16, from_wire};

/// Standard check value: CRC-16/Modbus of "123456789" == 0x4B37.
#[test]
fn check_value() {
    assert_eq!(crc16(b"123456789"), 0x4B37);
}

#[test]
fn round_trip() {
    let mut frame = vec![0x01, 0x03, 0x00, 0x00, 0x00, 0x0A];
    append_crc(&mut frame);
    // The CRC of everything except the last two bytes must match the
    // little-endian value in the last two bytes.
    let payload = &frame[..frame.len() - 2];
    let computed = crc16(payload);
    let stored = u16::from_le_bytes([frame[frame.len() - 2], frame[frame.len() - 1]]);
    assert_eq!(computed, stored);
}

/// Known frame: slave 1, FC 03, read holding registers from 0 for 10.
/// Wire bytes `01 03 00 00 00 0A C5 CD`: the trailing CRC is stored
/// little-endian (low byte 0xC5, high byte 0xCD), so the numeric CRC
/// value is 0xCDC5.
#[test]
fn known_frame_crc() {
    let payload = [0x01, 0x03, 0x00, 0x00, 0x00, 0x0A];
    assert_eq!(crc16(&payload), 0xCDC5);
    // And the wire bytes round-trip through append_crc:
    let mut frame = payload.to_vec();
    append_crc(&mut frame);
    assert_eq!(&frame[6..], &[0xC5, 0xCD]);
}

#[test]
fn crc_of_nothing_is_the_initial_value() {
    assert_eq!(crc16(&[]), 0xFFFF);
}

#[test]
fn crc_over_message_and_crc_is_zero() {
    let mut frame = vec![0x11, 0x2B, 0x0E, 0x01, 0x00];
    append_crc(&mut frame);
    assert_eq!(crc16(&frame), 0);
    let last = frame.len() - 1;
    frame[last] ^= 0x01;
    assert_ne!(crc16(&frame), 0);
}

#[test]
fn wire_order_is_low_byte_first() {
    assert_eq!(from_wire(0xC5, 0xCD), 0xCDC5);
    assert_eq!(from_wire(0x00, 0xFF), 0xFF00);
}
