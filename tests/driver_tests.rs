use printer_core::drv8825::{direction_level, microstep_pins, Direction, Microsteps as Drv};
use printer_core::fixed_point::Fixed16_16;
use printer_core::thermistor::{ConversionMode, NtcThermistor};
use printer_core::tmc::{Microsteps, SlaveAddress, Tmc2209};

fn fx(v: f32) -> Fixed16_16 {
    Fixed16_16((v * 65536.0) as i32)
}

fn to_f32(v: Fixed16_16) -> f32 {
    v.0 as f32 / 65536.0
}

fn temp_table() -> [(u16, Fixed16_16); 5] {
    [(356, fx(100.0)), (852, fx(50.0)), (1825, fx(25.0)), (3084, fx(0.0)), (3828, fx(-20.0))]
}

#[test]
fn test_table_exact_match() {
    let table = temp_table();
    let thermistor = NtcThermistor::new(ConversionMode::Table(&table));
    assert_eq!(thermistor.temperature(1825), Some(fx(25.0)));
    assert_eq!(thermistor.temperature(356), Some(fx(100.0)));
}

#[test]
fn test_table_interpolation() {
    let table = temp_table();
    let thermistor = NtcThermistor::new(ConversionMode::Table(&table));
    // 486 of the 973 counts from 852 to 1825: 50 - 25 * 486 / 973 = 37.51285.
    let adc_mid = 852 + (1825 - 852) / 2;
    let temp = thermistor.temperature(adc_mid).unwrap();
    assert!((to_f32(temp) - 37.51285).abs() < 1e-4);
    // Q16.16 value: 50 + trunc((25 - 50) * 65536 * 486 / 973).
    assert_eq!(temp.0, 50 * 65536 - (25 * 65536 * 486) / 973);
}

#[test]
fn test_table_out_of_bounds() {
    let table = temp_table();
    let thermistor = NtcThermistor::new(ConversionMode::Table(&table));
    assert_eq!(thermistor.temperature(100), None);
    assert_eq!(thermistor.temperature(4000), None);
    let empty: [(u16, Fixed16_16); 0] = [];
    assert_eq!(NtcThermistor::new(ConversionMode::Table(&empty)).temperature(5), None);
}

#[test]
fn fixed_point_table_and_polynomial() {
    let table = [(356, fx(100.0)), (852, fx(50.0)), (3084, fx(0.0)), (3828, fx(-20.0))];
    let thermistor = NtcThermistor::new(ConversionMode::Table(&table));
    assert_eq!(thermistor.temperature(852), Some(fx(50.0)));
    assert_eq!(thermistor.temperature(3456), Some(fx(-10.0)));
    assert_eq!(thermistor.temperature(355), None);
    let coeffs = [fx(1.5), fx(0.5), fx(0.0)];
    let poly = NtcThermistor::new(ConversionMode::Polynomial(&coeffs));
    assert_eq!(poly.temperature(10), Some(fx(6.5)));
    let none: [Fixed16_16; 0] = [];
    assert_eq!(NtcThermistor::new(ConversionMode::Polynomial(&none)).temperature(10), Some(fx(0.0)));
    assert!((to_f32(thermistor.temperature(1000).unwrap()) - (50.0 - 50.0 * 148.0 / 2232.0)).abs() < 1e-3);
}

fn tmc_crc(d: &[u8]) -> u8 {
    let mut crc = 0u8;
    for &b in d {
        let mut cur = b;
        for _ in 0..8 {
            if ((crc >> 7) ^ (cur & 1)) != 0 {
                crc = (crc << 1) ^ 0x07;
            } else {
                crc <<= 1;
            }
            cur >>= 1;
        }
    }
    crc
}

fn datagram(addr: u8, reg: u8, data: u32) -> [u8; 8] {
    let b = data.to_be_bytes();
    let head = [0x05, addr, 0x80 | reg, b[0], b[1], b[2], b[3]];
    [head[0], head[1], head[2], head[3], head[4], head[5], head[6], tmc_crc(&head)]
}

#[test]
fn tmc2209_register_datagrams() {
    let drv = Tmc2209::new(SlaveAddress::Addr2);
    assert_eq!(drv.set_run_current(16), datagram(2, 0x10, 16 << 8));
    assert_eq!(drv.set_run_current(0xFF), datagram(2, 0x10, 31 << 8));
    assert_eq!(drv.set_hold_current(40), datagram(2, 0x10, 8));
    assert_eq!(drv.set_pdn_disable(true), datagram(2, 0x00, 1 << 4));
    assert_eq!(drv.set_pdn_disable(false), datagram(2, 0x00, 0));
    assert_eq!(drv.set_microsteps(Microsteps::Steps16), datagram(2, 0x6C, (4 << 24) | (1 << 28)));
    assert_eq!(drv.set_microsteps(Microsteps::FullStep), datagram(2, 0x6C, (8 << 24) | (1 << 28)));
    assert_eq!(drv.write_register(0x06, 0xDEADBEEF), datagram(2, 0x06, 0xDEADBEEF));
    let d = Tmc2209::new(SlaveAddress::Default).set_pdn_disable(true);
    assert_eq!(&d[..7], &[0x05, 0x00, 0x80, 0x00, 0x00, 0x00, 0x10]);
    assert_eq!(d[7], drv.calculate_crc(&d[..7]));
}

#[test]
fn drv8825_microstep_and_direction_levels() {
    assert_eq!(microstep_pins(Drv::Full), (false, false, false));
    assert_eq!(microstep_pins(Drv::Half), (true, false, false));
    assert_eq!(microstep_pins(Drv::Quarter), (false, true, false));
    assert_eq!(microstep_pins(Drv::Eighth), (true, true, false));
    assert_eq!(microstep_pins(Drv::Sixteenth), (false, false, true));
    assert_eq!(microstep_pins(Drv::ThirtySecond), (true, false, true));
    assert!(direction_level(Direction::Forward));
    assert!(!direction_level(Direction::Backward));
}
