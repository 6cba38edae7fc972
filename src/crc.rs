//! Checksums: CRC-16-CCITT for wire frames (polynomial 0x1021, seed 0xFFFF,
//! MSB first, no output XOR), an 8-bit CRC for short codec frames
//! (polynomial 0x07, seed 0) and the LSB-first CRC-8 of Trinamic datagrams.
use vstd::prelude::*;

verus! {

/// One shift of the CRC-16 register.
pub open spec fn crc16_shift(c: u16) -> u16 {
    if c & 0x8000u16 != 0 {
        ((c << 1u16) ^ 0x1021u16) as u16
    } else {
        (c << 1u16) as u16
    }
}

/// `n` shifts of the CRC-16 register.
pub open spec fn crc16_shifts(c: u16, n: nat) -> u16
    decreases n,
{
    if n == 0 {
        c
    } else {
        crc16_shifts(crc16_shift(c), (n - 1) as nat)
    }
}

/// The CRC-16 register after taking in byte `b`.
pub open spec fn crc16_step(c: u16, b: u8) -> u16 {
    crc16_shifts((c ^ ((b as u16) << 8u16)) as u16, 8)
}

/// CRC-16-CCITT of a byte sequence.
pub open spec fn crc16_of(s: Seq<u8>) -> u16
    decreases s.len(),
{
    if s.len() == 0 {
        0xFFFFu16
    } else {
        crc16_step(crc16_of(s.drop_last()), s.last())
    }
}

/// One shift of the 8-bit register (polynomial 0x07).
pub open spec fn crc8_shift(c: u8) -> u8 {
    if c & 0x80u8 != 0 {
        ((c << 1u8) ^ 0x07u8) as u8
    } else {
        (c << 1u8) as u8
    }
}

/// `n` shifts of the 8-bit register.
pub open spec fn crc8_shifts(c: u8, n: nat) -> u8
    decreases n,
{
    if n == 0 {
        c
    } else {
        crc8_shifts(crc8_shift(c), (n - 1) as nat)
    }
}

/// The 8-bit CRC (polynomial 0x07, seed 0, MSB first) of a byte sequence.
pub open spec fn crc8_of(s: Seq<u8>) -> u8
    decreases s.len(),
{
    if s.len() == 0 {
        0u8
    } else {
        crc8_shifts((crc8_of(s.drop_last()) ^ s.last()) as u8, 8)
    }
}

/// One step of the LSB-first CRC-8 used by Trinamic drivers: the register
/// and the rest of the input byte.
pub open spec fn tmc_shift(c: u8, cur: u8) -> (u8, u8) {
    let c2 = if ((c >> 7u8) ^ (cur & 1u8)) != 0 {
        ((c << 1u8) ^ 0x07u8) as u8
    } else {
        (c << 1u8) as u8
    };
    (c2, cur >> 1u8)
}

/// `n` steps of the Trinamic CRC register.
pub open spec fn tmc_shifts(c: u8, cur: u8, n: nat) -> u8
    decreases n,
{
    if n == 0 {
        c
    } else {
        let (c2, cur2) = tmc_shift(c, cur);
        tmc_shifts(c2, cur2, (n - 1) as nat)
    }
}

/// The Trinamic datagram CRC-8 of a byte sequence.
pub open spec fn tmc_crc_of(s: Seq<u8>) -> u8
    decreases s.len(),
{
    if s.len() == 0 {
        0u8
    } else {
        tmc_shifts(tmc_crc_of(s.drop_last()), s.last(), 8)
    }
}

/// CRC-16-CCITT of the first `len` bytes of `data`.
pub fn crc16_ccitt(data: &[u8], len: usize) -> (r: u16)
    requires
        len <= data@.len(),
    ensures
        r == crc16_of(data@.subrange(0, len as int)),
{
    let mut crc: u16 = 0xFFFF;
    let mut i: usize = 0;
    while i < len
        invariant
            i <= len <= data@.len(),
            crc == crc16_of(data@.subrange(0, i as int)),
        decreases len - i,
    {
        let b = data[i];
        let start: u16 = crc ^ ((b as u16) << 8u16);
        crc = start;
        let mut j: usize = 0;
        while j < 8
            invariant
                j <= 8,
                crc16_shifts(start, 8) == crc16_shifts(crc, (8 - j) as nat),
            decreases 8 - j,
        {
            if crc & 0x8000 != 0 {
                crc = (crc << 1u16) ^ 0x1021;
            } else {
                crc = crc << 1u16;
            }
            j += 1;
        }
        proof {
            let s = data@.subrange(0, i as int + 1);
            assert(s.drop_last() =~= data@.subrange(0, i as int));
        }
        i += 1;
    }
    crc
}

/// The 8-bit CRC (polynomial 0x07, seed 0) of `data`.
pub fn crc8(data: &[u8]) -> (r: u8)
    ensures
        r == crc8_of(data@),
{
    let mut crc: u8 = 0;
    let mut i: usize = 0;
    while i < data.len()
        invariant
            i <= data@.len(),
            crc == crc8_of(data@.subrange(0, i as int)),
        decreases data@.len() - i,
    {
        let start: u8 = crc ^ data[i];
        crc = start;
        let mut j: usize = 0;
        while j < 8
            invariant
                j <= 8,
                crc8_shifts(start, 8) == crc8_shifts(crc, (8 - j) as nat),
            decreases 8 - j,
        {
            if crc & 0x80 != 0 {
                crc = (crc << 1u8) ^ 0x07;
            } else {
                crc = crc << 1u8;
            }
            j += 1;
        }
        proof {
            let s = data@.subrange(0, i as int + 1);
            assert(s.drop_last() =~= data@.subrange(0, i as int));
        }
        i += 1;
    }
    proof {
        assert(data@.subrange(0, data@.len() as int) =~= data@);
    }
    crc
}

/// The LSB-first CRC-8 that Trinamic drivers expect at the end of a datagram.
pub fn tmc_crc(data: &[u8]) -> (r: u8)
    ensures
        r == tmc_crc_of(data@),
{
    let mut crc: u8 = 0;
    let mut i: usize = 0;
    while i < data.len()
        invariant
            i <= data@.len(),
            crc == tmc_crc_of(data@.subrange(0, i as int)),
        decreases data@.len() - i,
    {
        let byte = data[i];
        let start = crc;
        let mut cur: u8 = byte;
        let mut j: usize = 0;
        while j < 8
            invariant
                j <= 8,
                tmc_shifts(start, byte, 8) == tmc_shifts(crc, cur, (8 - j) as nat),
            decreases 8 - j,
        {
            if ((crc >> 7u8) ^ (cur & 1u8)) != 0 {
                crc = (crc << 1u8) ^ 0x07;
            } else {
                crc = crc << 1u8;
            }
            cur = cur >> 1u8;
            j += 1;
        }
        proof {
            let s = data@.subrange(0, i as int + 1);
            assert(s.drop_last() =~= data@.subrange(0, i as int));
        }
        i += 1;
    }
    proof {
        assert(data@.subrange(0, data@.len() as int) =~= data@);
    }
    crc
}

} // verus!
