//! The host-side framing codec over a growable byte buffer.
//!
//! A frame is `SYNC | LEN | CRC8 | stuffed payload`, where `LEN` counts the
//! bytes after itself before stuffing (the CRC and the payload) and the 8-bit
//! CRC covers the unstuffed payload. The
//! payload bytes are the serialised message; turning them into values is the
//! caller's part.
use vstd::prelude::*;
use crate::crc::{crc8, crc8_of};
use crate::protocol::{command_body, command_bytes, command_model, command_of, is_encodable, lemma_command_round_trip, Command, CommandModel, Error};
use crate::stuffing::{
    escape, find_sync, lemma_unstuff_n_stuff, stuff, sync_index, unescape_n, unstuff_n, SYNC_BYTE,
};

verus! {

/// Largest value of the length field.
pub const MAX_FRAME_LEN: usize = 255;

/// The frame that carries `payload`.
pub open spec fn codec_frame(payload: Seq<u8>) -> Seq<u8> {
    seq![SYNC_BYTE, (payload.len() + 1) as u8, crc8_of(payload)] + stuff(payload)
}

/// Whether the frame of `payload` fits its length field.
pub open spec fn fits_frame(payload: Seq<u8>) -> bool {
    payload.len() + 1 <= MAX_FRAME_LEN
}

/// What decoding does to the buffer `s`: the outcome, and what is left of
/// the buffer. A frame is complete once `LEN - 1` payload bytes can be
/// unstuffed after its CRC byte; a wrong length or CRC drops the sync byte
/// only.
pub open spec fn decode_model(s: Seq<u8>) -> (Result<Option<Seq<u8>>, Error>, Seq<u8>) {
    let k = sync_index(s);
    if k == s.len() {
        (Ok(None), seq![])
    } else {
        let t = s.skip(k);
        if t.len() < 3 {
            (Ok(None), t)
        } else if t[1] == 0 {
            (Err(Error::IncompleteFrame), t.skip(1))
        } else {
            match unstuff_n(t.skip(3), (t[1] - 1) as nat) {
                None => (Ok(None), t),
                Some((p, c)) => if crc8_of(p) != t[2] {
                    (Err(Error::InvalidCrc), t.skip(1))
                } else {
                    (Ok(Some(p)), t.skip(3 + c))
                },
            }
        }
    }
}

/// Copies `s[lo..hi]` into a new vector.
fn copy_range(s: &[u8], lo: usize, hi: usize) -> (r: Vec<u8>)
    requires
        lo <= hi <= s@.len(),
    ensures
        r@ == s@.subrange(lo as int, hi as int),
{
    let mut r: Vec<u8> = Vec::new();
    let mut i: usize = lo;
    while i < hi
        invariant
            lo <= i <= hi <= s@.len(),
            r@ == s@.subrange(lo as int, i as int),
        decreases hi - i,
    {
        r.push(s[i]);
        assert(s@.subrange(lo as int, i + 1) =~= s@.subrange(lo as int, i as int).push(s@[i as int]));
        i += 1;
    }
    r
}

/// Frames payloads with an 8-bit CRC and byte stuffing.
#[derive(Clone, Copy, Debug, Default)]
pub struct KlipperCodec {}

impl KlipperCodec {
    /// Creates a codec.
    pub fn new() -> (r: KlipperCodec) {
        KlipperCodec {}
    }

    /// The 8-bit CRC of `data`.
    pub fn crc8_atm(data: &[u8]) -> (r: u8)
        ensures
            r == crc8_of(data@),
    {
        crc8(data)
    }

    /// Appends the frame of `payload` to `dst`; fails with `BufferTooSmall`,
    /// leaving `dst` as it was, where the frame would not fit its length field.
    pub fn encode(&mut self, payload: &[u8], dst: &mut Vec<u8>) -> (r: Result<(), Error>)
        ensures
            fits_frame(payload@) ==> r is Ok && final(dst)@ == old(dst)@ + codec_frame(payload@),
            !fits_frame(payload@) ==> r == Err::<(), Error>(Error::BufferTooSmall) && final(dst)@
                == old(dst)@,
    {
        if payload.len() > MAX_FRAME_LEN - 1 {
            return Err(Error::BufferTooSmall);
        }
        let crc = crc8(payload);
        let mut body: Vec<u8> = Vec::new();
        escape(payload, &mut body);
        assert(body@ =~= stuff(payload@));
        dst.push(SYNC_BYTE);
        dst.push((payload.len() + 1) as u8);
        dst.push(crc);
        dst.extend_from_slice(body.as_slice());
        assert(dst@ =~= old(dst)@ + codec_frame(payload@));
        Ok(())
    }

    /// Appends the frame that carries the identifier and payload bytes of
    /// `cmd` to `dst`; fails with `BufferTooSmall`, leaving `dst` as it was,
    /// where they do not fit a frame.
    pub fn encode_command(&mut self, cmd: &Command, dst: &mut Vec<u8>) -> (r: Result<(), Error>)
        ensures
            fits_frame(command_bytes(command_model(*cmd))) ==> r is Ok && final(dst)@ == old(dst)@
                + codec_frame(command_bytes(command_model(*cmd))),
            !fits_frame(command_bytes(command_model(*cmd))) ==> r == Err::<(), Error>(
                Error::BufferTooSmall,
            ) && final(dst)@ == old(dst)@,
    {
        let body = command_body(cmd);
        self.encode(body.as_slice(), dst)
    }

    /// Takes the next frame out of `src`. Leading bytes before a sync byte are
    /// dropped. Returns `Ok(None)` where the frame is not complete yet. For a
    /// frame with a zero length or a wrong CRC only its sync byte is taken
    /// out, so scanning resumes at the next candidate.
    pub fn decode(&mut self, src: &mut Vec<u8>) -> (r: Result<Option<Vec<u8>>, Error>)
        ensures
            final(src)@ == decode_model(old(src)@).1,
            match decode_model(old(src)@).0 {
                Ok(Some(p)) => r is Ok && r->Ok_0 is Some && r->Ok_0->Some_0@ == p,
                Ok(None) => r == Ok::<Option<Vec<u8>>, Error>(None),
                Err(e) => r == Err::<Option<Vec<u8>>, Error>(e),
            },
    {
        let ghost s = src@;
        let k = find_sync(src.as_slice());
        if k == src.len() {
            src.clear();
            assert(src@ =~= Seq::<u8>::empty());
            return Ok(None);
        }
        let t = copy_range(src.as_slice(), k, src.len());
        assert(t@ =~= s.skip(k as int));
        if t.len() < 3 {
            *src = t;
            return Ok(None);
        }
        if t[1] == 0 {
            let rest = copy_range(t.as_slice(), 1, t.len());
            assert(rest@ =~= t@.skip(1));
            *src = rest;
            return Err(Error::IncompleteFrame);
        }
        let n = (t[1] - 1) as usize;
        match unescape_n(t.as_slice(), 3, n) {
            None => {
                *src = t;
                Ok(None)
            },
            Some((p, end)) => {
                if crc8(p.as_slice()) != t[2] {
                    let rest = copy_range(t.as_slice(), 1, t.len());
                    assert(rest@ =~= t@.skip(1));
                    *src = rest;
                    Err(Error::InvalidCrc)
                } else {
                    let rest = copy_range(t.as_slice(), end, t.len());
                    assert(rest@ =~= t@.skip(end as int));
                    *src = rest;
                    Ok(Some(p))
                }
            },
        }
    }
}

/// Decoding a buffer that holds exactly the frame of a payload gives the
/// payload back and empties the buffer.
pub proof fn lemma_decode_encode(payload: Seq<u8>)
    requires
        fits_frame(payload),
    ensures
        decode_model(codec_frame(payload)) == (
            Ok::<Option<Seq<u8>>, Error>(Some(payload)),
            Seq::<u8>::empty(),
        ),
{
    let f = codec_frame(payload);
    assert(f[0] == SYNC_BYTE);
    assert(sync_index(f) == 0);
    assert(f.skip(0) =~= f);
    assert(f[1] as int == payload.len() + 1);
    assert(f.skip(3) =~= stuff(payload) + Seq::<u8>::empty());
    lemma_unstuff_n_stuff(payload, Seq::<u8>::empty());
    assert(f.skip(3 + stuff(payload).len() as int) =~= Seq::<u8>::empty());
}

/// Decoding a buffer that holds exactly the frame of a command gives bytes
/// that decode back to that command, and empties the buffer.
pub proof fn lemma_decode_encoded_command(c: CommandModel)
    requires
        is_encodable(c),
        fits_frame(command_bytes(c)),
    ensures
        decode_model(codec_frame(command_bytes(c))) == (
            Ok::<Option<Seq<u8>>, Error>(Some(command_bytes(c))),
            Seq::<u8>::empty(),
        ),
        command_of(command_bytes(c)) == Some(c),
{
    lemma_decode_encode(command_bytes(c));
    lemma_command_round_trip(c);
}

} // verus!
