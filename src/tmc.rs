//! Register datagrams of the TMC2209 stepper driver's single-wire UART.
//!
//! A write datagram is `SYNC | slave address | 0x80 | register | data (4
//! bytes, big-endian) | CRC`, the CRC being the driver's LSB-first CRC-8 of
//! the first seven bytes. Sending the bytes is the caller's part.
use vstd::prelude::*;
use crate::crc::{tmc_crc, tmc_crc_of};
use crate::protocol::{u32_bytes, write_be_u32};

verus! {

/// First byte of every datagram.
pub const TMC_SYNC: u8 = 0x05;

/// Global configuration register.
pub const REG_GCONF: u8 = 0x00;
/// Input pin state register.
pub const REG_IOIN: u8 = 0x06;
/// Hold and run current register.
pub const REG_IHOLDIRUN: u8 = 0x10;
/// Chopper configuration register.
pub const REG_CHOPCONF: u8 = 0x6C;

/// Errors of a Trinamic driver.
#[derive(Clone, Copy, Debug, PartialEq, Eq)]
pub enum Error<E> {
    /// The serial line failed.
    Serial(E),
    /// A received datagram had a wrong CRC.
    InvalidCrc,
    /// The driver variant does not support the operation.
    NotSupported,
}

/// UART slave address of a driver.
#[derive(Clone, Copy, Debug, PartialEq, Eq, Structural)]
pub enum SlaveAddress {
    Default,
    Addr1,
    Addr2,
    Addr3,
}

/// Numeric value of a slave address.
pub open spec fn address_value(a: SlaveAddress) -> u8 {
    match a {
        SlaveAddress::Default => 0,
        SlaveAddress::Addr1 => 1,
        SlaveAddress::Addr2 => 2,
        SlaveAddress::Addr3 => 3,
    }
}

/// Microstep resolution.
#[derive(Clone, Copy, Debug, PartialEq, Eq, Structural)]
pub enum Microsteps {
    Steps256,
    Steps128,
    Steps64,
    Steps32,
    Steps16,
    Steps8,
    Steps4,
    Steps2,
    FullStep,
}

/// The `MRES` field value of a resolution.
pub open spec fn mres_value(m: Microsteps) -> u32 {
    match m {
        Microsteps::Steps256 => 0,
        Microsteps::Steps128 => 1,
        Microsteps::Steps64 => 2,
        Microsteps::Steps32 => 3,
        Microsteps::Steps16 => 4,
        Microsteps::Steps8 => 5,
        Microsteps::Steps4 => 6,
        Microsteps::Steps2 => 7,
        Microsteps::FullStep => 8,
    }
}

/// The datagram that writes `data` to register `reg` of the driver at
/// `addr`.
pub open spec fn write_datagram(addr: u8, reg: u8, data: u32) -> Seq<u8> {
    let head = seq![TMC_SYNC, addr, (0x80u8 | reg) as u8] + u32_bytes(data);
    head.push(tmc_crc_of(head))
}

/// A TMC2209 on a UART, by its slave address.
#[derive(Clone, Copy, Debug)]
pub struct Tmc2209 {
    slave_addr: u8,
}

impl Tmc2209 {
    /// The driver's slave address.
    pub closed spec fn addr(&self) -> u8 {
        self.slave_addr
    }

    /// A driver at `address`.
    pub fn new(address: SlaveAddress) -> (r: Tmc2209)
        ensures
            r.addr() == address_value(address),
    {
        let slave_addr: u8 = match address {
            SlaveAddress::Default => 0,
            SlaveAddress::Addr1 => 1,
            SlaveAddress::Addr2 => 2,
            SlaveAddress::Addr3 => 3,
        };
        Tmc2209 { slave_addr }
    }

    /// The datagram that writes `data` to register `reg`.
    pub fn write_register(&self, reg: u8, data: u32) -> (r: [u8; 8])
        ensures
            r@ == write_datagram(self.addr(), reg, data),
    {
        let b = write_be_u32(data);
        let head: [u8; 7] = [TMC_SYNC, self.slave_addr, 0x80u8 | reg, b[0], b[1], b[2], b[3]];
        let crc = tmc_crc(&head);
        let r: [u8; 8] = [head[0], head[1], head[2], head[3], head[4], head[5], head[6], crc];
        assert(head@ =~= seq![TMC_SYNC, self.slave_addr, (0x80u8 | reg) as u8] + u32_bytes(data));
        assert(r@ =~= head@.push(crc));
        r
    }

    /// Sets the run current (0 to 31; higher bits are dropped).
    pub fn set_run_current(&self, current: u8) -> (r: [u8; 8])
        ensures
            r@ == write_datagram(self.addr(), REG_IHOLDIRUN, ((current % 32) as u32 * 256) as u32),
    {
        self.write_register(REG_IHOLDIRUN, (current % 32) as u32 * 256)
    }

    /// Sets the hold current (0 to 31; higher bits are dropped).
    pub fn set_hold_current(&self, current: u8) -> (r: [u8; 8])
        ensures
            r@ == write_datagram(self.addr(), REG_IHOLDIRUN, (current % 32) as u32),
    {
        self.write_register(REG_IHOLDIRUN, (current % 32) as u32)
    }

    /// Configures the UART for single-driver operation.
    pub fn set_pdn_disable(&self, disable: bool) -> (r: [u8; 8])
        ensures
            r@ == write_datagram(self.addr(), REG_GCONF, if disable { 16u32 } else { 0u32 }),
    {
        self.write_register(REG_GCONF, if disable { 16 } else { 0 })
    }

    /// Sets the microstep resolution, with interpolation on.
    pub fn set_microsteps(&self, mres: Microsteps) -> (r: [u8; 8])
        ensures
            r@ == write_datagram(
                self.addr(),
                REG_CHOPCONF,
                (mres_value(mres) * 0x100_0000 + 0x1000_0000) as u32,
            ),
    {
        let m: u32 = match mres {
            Microsteps::Steps256 => 0,
            Microsteps::Steps128 => 1,
            Microsteps::Steps64 => 2,
            Microsteps::Steps32 => 3,
            Microsteps::Steps16 => 4,
            Microsteps::Steps8 => 5,
            Microsteps::Steps4 => 6,
            Microsteps::Steps2 => 7,
            Microsteps::FullStep => 8,
        };
        self.write_register(REG_CHOPCONF, m * 0x100_0000 + 0x1000_0000)
    }

    /// The CRC of a datagram's bytes.
    pub fn calculate_crc(&self, datagram: &[u8]) -> (r: u8)
        ensures
            r == tmc_crc_of(datagram@),
    {
        tmc_crc(datagram)
    }
}

} // verus!
