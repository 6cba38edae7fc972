use printer_core::codec::KlipperCodec;
use printer_core::crc::{crc16_ccitt, crc8, tmc_crc};

#[test]
fn test_crc16_ccitt_standard_vector() {
    // Polynomial 0x1021, seed 0xFFFF, MSB first, no output XOR.
    let data = b"123456789";
    assert_eq!(crc16_ccitt(data, data.len()), 0x29B1);
}

#[test]
fn test_crc16_ccitt_klipper_vector() {
    let data: [u8; 21] = [
        0x15, 0x01, 0x01, 0x83, 0xa7, 0x76, 0x65, 0x72, 0x73, 0x69, 0x6f, 0x6e, 0xa3, 0x31,
        0x32, 0x33, 0x00, 0x00, 0x00, 0x00, 0x00,
    ];
    assert_eq!(crc16_ccitt(&data, data.len()), 0x6A4B);
}

#[test]
fn crc16_of_nothing_is_the_seed() {
    assert_eq!(crc16_ccitt(&[], 0), 0xFFFF);
}

#[test]
fn crc16_covers_only_the_given_length() {
    let data = b"123456789XYZ";
    assert_eq!(crc16_ccitt(data, 9), 0x29B1);
}

#[test]
fn crc8_standard_vector() {
    // CRC-8 with polynomial 0x07, seed 0, no reflection: check value 0xF4.
    assert_eq!(crc8(b"123456789"), 0xF4);
    assert_eq!(KlipperCodec::crc8_atm(b"123456789"), 0xF4);
    assert_eq!(crc8(&[]), 0);
}

#[test]
fn tmc_crc_of_empty_and_zero_bytes() {
    assert_eq!(tmc_crc(&[]), 0);
    assert_eq!(tmc_crc(&[0, 0, 0]), 0);
    assert_eq!(tmc_crc(&[0x01]), 0x89);
}
