//! Typed wire messages and the zero-copy frame parser.
//!
//! A frame is `SYNC | LEN | SEQ | CMD_ID | payload | CRC`, where `LEN`
//! counts every byte after itself through the end of the two CRC bytes, and
//! the big-endian CRC-16-CCITT covers the `LEN - 1` bytes from `LEN` through
//! the end of the payload.
use vstd::prelude::*;
use crate::crc::{crc16_ccitt, crc16_of};
use crate::stuffing::{find_sync, sync_index, SYNC_BYTE};

verus! {

/// Errors of the wire layer. Each is recovered from by discarding bytes as
/// the parser or the codec directs.
#[derive(Clone, Copy, Debug, PartialEq, Eq, Structural)]
pub enum Error {
    /// A frame was too short to be valid.
    IncompleteFrame,
    /// No sync byte was found.
    InvalidSync,
    /// The checksum of a frame did not match.
    InvalidCrc,
    /// The payload is not a valid command.
    InvalidPayload,
    /// A frame would not fit its length field.
    BufferTooSmall,
}

/// Command identifier of `Identify`.
pub const CMD_IDENTIFY: u8 = 0x01;
/// Command identifier of `GetConfig`.
pub const CMD_GET_CONFIG: u8 = 0x02;
/// Command identifier of `GetStatus`.
pub const CMD_GET_STATUS: u8 = 0x03;
/// Command identifier of `QueueStep`.
pub const CMD_QUEUE_STEP: u8 = 0x10;
/// Command identifier of `SetPwmOut`.
pub const CMD_SET_PWM_OUT: u8 = 0x20;
/// Command identifier of `SetDigitalOut`.
pub const CMD_SET_DIGITAL_OUT: u8 = 0x21;

/// A command to queue steps for one or more motors.
#[derive(Clone, Copy, Debug, PartialEq, Eq, Structural)]
pub struct CommandQueueStep {
    pub interval_ticks: u32,
    pub count: u16,
    pub add: i16,
}

/// Commands sent from the host to the MCU. Byte fields borrow from the
/// parsed buffer.
#[derive(Clone, Copy, Debug, PartialEq, Eq)]
#[allow(inconsistent_fields)]
pub enum Command<'a> {
    Identify { dict_version: &'a [u8] },
    GetConfig,
    GetStatus,
    QueueStep(CommandQueueStep),
    SetDigitalOut { pin: u8, value: u8 },
    SetPwmOut { pin: u8, value: u16 },
    /// A command identifier that this side does not know, with its payload.
    Unknown(u8, &'a [u8]),
}

/// Responses sent from the MCU to the host.
#[derive(Clone, Copy, Debug, PartialEq, Eq)]
pub enum Response<'a> {
    Identify { is_config_valid: bool, version: &'a [u8], mcu_name: &'a [u8] },
    Status {},
    Config {},
    Unknown,
}

/// A message in either direction.
#[derive(Clone, Copy, Debug, PartialEq, Eq)]
pub enum Message<'a> {
    Command(Command<'a>),
    Response(Response<'a>),
}

/// What a command holds, as plain values.
pub enum CommandModel {
    Identify(Seq<u8>),
    GetConfig,
    GetStatus,
    QueueStep(u32, u16, i16),
    SetDigitalOut(u8, u8),
    SetPwmOut(u8, u16),
    Unknown(u8, Seq<u8>),
}

/// The plain values of a command.
pub open spec fn command_model(c: Command) -> CommandModel {
    match c {
        Command::Identify { dict_version } => CommandModel::Identify(dict_version@),
        Command::GetConfig => CommandModel::GetConfig,
        Command::GetStatus => CommandModel::GetStatus,
        Command::QueueStep(q) => CommandModel::QueueStep(q.interval_ticks, q.count, q.add),
        Command::SetDigitalOut { pin, value } => CommandModel::SetDigitalOut(pin, value),
        Command::SetPwmOut { pin, value } => CommandModel::SetPwmOut(pin, value),
        Command::Unknown(id, bytes) => CommandModel::Unknown(id, bytes@),
    }
}

/// Big-endian `u16` of two bytes.
pub open spec fn be_u16(hi: u8, lo: u8) -> u16 {
    (hi as int * 256 + lo as int) as u16
}

/// Big-endian `u32` of four bytes.
pub open spec fn be_u32(b0: u8, b1: u8, b2: u8, b3: u8) -> u32 {
    (b0 as int * 0x100_0000 + b1 as int * 0x1_0000 + b2 as int * 0x100 + b3 as int) as u32
}

/// The `i16` with the bits of a `u16`.
pub open spec fn as_signed(v: u16) -> i16 {
    if v >= 0x8000 {
        (v as int - 0x1_0000) as i16
    } else {
        v as i16
    }
}

/// The command that `b` (identifier, then payload) encodes, if any.
pub open spec fn command_of(b: Seq<u8>) -> Option<CommandModel> {
    if b.len() == 0 {
        None
    } else {
        let id = b[0];
        let p = b.skip(1);
        if id == CMD_IDENTIFY {
            Some(CommandModel::Identify(p))
        } else if id == CMD_GET_CONFIG {
            Some(CommandModel::GetConfig)
        } else if id == CMD_GET_STATUS {
            Some(CommandModel::GetStatus)
        } else if id == CMD_QUEUE_STEP {
            if p.len() < 8 {
                None
            } else {
                Some(
                    CommandModel::QueueStep(
                        be_u32(p[0], p[1], p[2], p[3]),
                        be_u16(p[4], p[5]),
                        as_signed(be_u16(p[6], p[7])),
                    ),
                )
            }
        } else if id == CMD_SET_DIGITAL_OUT {
            if p.len() < 2 {
                None
            } else {
                Some(CommandModel::SetDigitalOut(p[0], p[1]))
            }
        } else if id == CMD_SET_PWM_OUT {
            if p.len() < 3 {
                None
            } else {
                Some(CommandModel::SetPwmOut(p[0], be_u16(p[1], p[2])))
            }
        } else {
            Some(CommandModel::Unknown(id, p))
        }
    }
}

/// What the parser makes of the bytes `s`.
pub enum ParseModel {
    /// More bytes are needed.
    Incomplete,
    /// A command and the number of bytes it took, leading noise included.
    Parsed(CommandModel, int),
    /// An error and the number of bytes to discard.
    Failed(Error, int),
}

/// The parser's outcome on `s`.
pub open spec fn parse_model(s: Seq<u8>) -> ParseModel {
    let k = sync_index(s);
    if k == s.len() {
        ParseModel::Incomplete
    } else {
        let t = s.skip(k);
        if t.len() < 2 {
            ParseModel::Incomplete
        } else {
            let n = t[1] as int;
            if t.len() < n + 2 {
                ParseModel::Incomplete
            } else if n < 4 {
                ParseModel::Failed(Error::IncompleteFrame, k + 1)
            } else if crc16_of(t.subrange(1, n)) != be_u16(t[n], t[n + 1]) {
                ParseModel::Failed(Error::InvalidCrc, k + 1)
            } else {
                match command_of(t.subrange(3, n)) {
                    Some(c) => ParseModel::Parsed(c, k + n + 2),
                    None => ParseModel::Failed(Error::InvalidPayload, k + 1),
                }
            }
        }
    }
}

/// The parser's outcome as returned by `Parser::parse`.
pub open spec fn parse_result_model(r: Result<Option<(Message, usize)>, (Error, usize)>) -> ParseModel {
    match r {
        Ok(None) => ParseModel::Incomplete,
        Ok(Some((Message::Command(c), n))) => ParseModel::Parsed(command_model(c), n as int),
        Ok(Some((Message::Response(_), n))) => ParseModel::Failed(Error::InvalidPayload, n as int),
        Err((e, n)) => ParseModel::Failed(e, n as int),
    }
}

/// Decodes the command that `b` holds: its identifier, then its payload.
pub fn parse_command<'a>(b: &'a [u8]) -> (r: Option<Command<'a>>)
    ensures
        match command_of(b@) {
            Some(m) => r.is_some() && command_model(r.unwrap()) == m,
            None => r.is_none(),
        },
{
    if b.len() == 0 {
        return None;
    }
    let id = b[0];
    let (_, p) = b.split_at(1);
    assert(p@ =~= b@.skip(1));
    if id == CMD_IDENTIFY {
        Some(Command::Identify { dict_version: p })
    } else if id == CMD_GET_CONFIG {
        Some(Command::GetConfig)
    } else if id == CMD_GET_STATUS {
        Some(Command::GetStatus)
    } else if id == CMD_QUEUE_STEP {
        if p.len() < 8 {
            None
        } else {
            let interval_ticks = read_be_u32(p[0], p[1], p[2], p[3]);
            let count = read_be_u16(p[4], p[5]);
            let add = to_signed(read_be_u16(p[6], p[7]));
            Some(Command::QueueStep(CommandQueueStep { interval_ticks, count, add }))
        }
    } else if id == CMD_SET_DIGITAL_OUT {
        if p.len() < 2 {
            None
        } else {
            Some(Command::SetDigitalOut { pin: p[0], value: p[1] })
        }
    } else if id == CMD_SET_PWM_OUT {
        if p.len() < 3 {
            None
        } else {
            Some(Command::SetPwmOut { pin: p[0], value: read_be_u16(p[1], p[2]) })
        }
    } else {
        Some(Command::Unknown(id, p))
    }
}

/// Big-endian `u16` of two bytes.
pub fn read_be_u16(hi: u8, lo: u8) -> (r: u16)
    ensures
        r == be_u16(hi, lo),
        r as int == hi as int * 256 + lo as int,
{
    hi as u16 * 256 + lo as u16
}

/// Big-endian `u32` of four bytes.
pub fn read_be_u32(b0: u8, b1: u8, b2: u8, b3: u8) -> (r: u32)
    ensures
        r == be_u32(b0, b1, b2, b3),
{
    b0 as u32 * 0x100_0000 + b1 as u32 * 0x1_0000 + b2 as u32 * 0x100 + b3 as u32
}

/// The `i16` with the bits of `v`.
pub fn to_signed(v: u16) -> (r: i16)
    ensures
        r == as_signed(v),
{
    if v >= 0x8000 {
        (v as i32 - 0x1_0000) as i16
    } else {
        v as i16
    }
}

/// Big-endian bytes of a `u16`.
pub open spec fn u16_bytes(v: u16) -> Seq<u8> {
    seq![(v / 0x100) as u8, (v % 0x100) as u8]
}

/// Big-endian bytes of a `u32`.
pub open spec fn u32_bytes(v: u32) -> Seq<u8> {
    seq![
        (v / 0x100_0000) as u8,
        (v / 0x1_0000 % 0x100) as u8,
        (v / 0x100 % 0x100) as u8,
        (v % 0x100) as u8,
    ]
}

/// The `u16` with the bits of `a`.
pub open spec fn as_unsigned(a: i16) -> u16 {
    if a < 0 {
        (a + 0x1_0000) as u16
    } else {
        a as u16
    }
}

/// Identifier and payload bytes of a command.
pub open spec fn command_bytes(c: CommandModel) -> Seq<u8> {
    match c {
        CommandModel::Identify(d) => seq![CMD_IDENTIFY] + d,
        CommandModel::GetConfig => seq![CMD_GET_CONFIG],
        CommandModel::GetStatus => seq![CMD_GET_STATUS],
        CommandModel::QueueStep(i, n, a) => seq![CMD_QUEUE_STEP] + u32_bytes(i) + u16_bytes(n)
            + u16_bytes(as_unsigned(a)),
        CommandModel::SetDigitalOut(p, v) => seq![CMD_SET_DIGITAL_OUT, p, v],
        CommandModel::SetPwmOut(p, v) => seq![CMD_SET_PWM_OUT, p] + u16_bytes(v),
        CommandModel::Unknown(id, b) => seq![id] + b,
    }
}

/// Whether a command has a frame of its own: an unknown command may not use
/// an identifier that this side knows.
pub open spec fn is_encodable(c: CommandModel) -> bool {
    match c {
        CommandModel::Unknown(id, _) => id != CMD_IDENTIFY && id != CMD_GET_CONFIG && id
            != CMD_GET_STATUS && id != CMD_QUEUE_STEP && id != CMD_SET_DIGITAL_OUT && id
            != CMD_SET_PWM_OUT,
        _ => true,
    }
}

/// Largest identifier-and-payload length that a frame can carry.
pub const MAX_BODY: usize = 252;

/// The frame that carries `body` (identifier, then payload) with sequence
/// number `seq`.
pub open spec fn frame_of(seq: u8, body: Seq<u8>) -> Seq<u8> {
    let head = seq![(body.len() + 3) as u8, seq] + body;
    seq![SYNC_BYTE] + head + u16_bytes(crc16_of(head))
}

/// Big-endian bytes of `v`.
pub fn write_be_u16(v: u16) -> (r: [u8; 2])
    ensures
        r@ == u16_bytes(v),
{
    [(v / 0x100) as u8, (v % 0x100) as u8]
}

/// Big-endian bytes of `v`.
pub fn write_be_u32(v: u32) -> (r: [u8; 4])
    ensures
        r@ == u32_bytes(v),
{
    [(v / 0x100_0000) as u8, (v / 0x1_0000 % 0x100) as u8, (v / 0x100 % 0x100) as u8, (v % 0x100) as u8]
}

/// The `u16` with the bits of `a`.
pub fn to_unsigned(a: i16) -> (r: u16)
    ensures
        r == as_unsigned(a),
{
    if a < 0 {
        (a as i32 + 0x1_0000) as u16
    } else {
        a as u16
    }
}

/// Identifier and payload bytes of `cmd`.
pub fn command_body(cmd: &Command) -> (r: Vec<u8>)
    ensures
        r@ == command_bytes(command_model(*cmd)),
{
    let mut b: Vec<u8> = Vec::new();
    match cmd {
        Command::Identify { dict_version } => {
            b.push(CMD_IDENTIFY);
            b.extend_from_slice(dict_version);
        },
        Command::GetConfig => {
            b.push(CMD_GET_CONFIG);
        },
        Command::GetStatus => {
            b.push(CMD_GET_STATUS);
        },
        Command::QueueStep(q) => {
            b.push(CMD_QUEUE_STEP);
            b.extend_from_slice(&write_be_u32(q.interval_ticks));
            b.extend_from_slice(&write_be_u16(q.count));
            b.extend_from_slice(&write_be_u16(to_unsigned(q.add)));
        },
        Command::SetDigitalOut { pin, value } => {
            b.push(CMD_SET_DIGITAL_OUT);
            b.push(*pin);
            b.push(*value);
        },
        Command::SetPwmOut { pin, value } => {
            b.push(CMD_SET_PWM_OUT);
            b.push(*pin);
            b.extend_from_slice(&write_be_u16(*value));
        },
        Command::Unknown(id, bytes) => {
            b.push(*id);
            b.extend_from_slice(bytes);
        },
    }
    assert(b@ =~= command_bytes(command_model(*cmd)));
    b
}

/// Appends the frame of `cmd` with sequence number `seq` to `dst`; fails with
/// `BufferTooSmall`, leaving `dst` as it was, where the command does not fit
/// a frame.
pub fn encode_command(seq: u8, cmd: &Command, dst: &mut Vec<u8>) -> (r: Result<(), Error>)
    ensures
        command_bytes(command_model(*cmd)).len() <= MAX_BODY ==> r is Ok && final(dst)@ == old(
            dst,
        )@ + frame_of(seq, command_bytes(command_model(*cmd))),
        command_bytes(command_model(*cmd)).len() > MAX_BODY ==> r == Err::<(), Error>(
            Error::BufferTooSmall,
        ) && final(dst)@ == old(dst)@,
{
    let body = command_body(cmd);
    if body.len() > MAX_BODY {
        return Err(Error::BufferTooSmall);
    }
    let mut frame: Vec<u8> = Vec::new();
    frame.push(SYNC_BYTE);
    frame.push((body.len() + 3) as u8);
    frame.push(seq);
    frame.extend_from_slice(body.as_slice());
    let ghost head = seq![(body@.len() + 3) as u8, seq] + body@;
    let (_, from_len) = frame.as_slice().split_at(1);
    assert(from_len@ =~= head);
    let crc = crc16_ccitt(from_len, from_len.len());
    assert(from_len@.subrange(0, from_len@.len() as int) =~= head);
    frame.extend_from_slice(&write_be_u16(crc));
    assert(frame@ =~= frame_of(seq, body@));
    dst.extend_from_slice(frame.as_slice());
    Ok(())
}

proof fn lemma_be_u16(v: u16)
    ensures
        be_u16((v / 0x100) as u8, (v % 0x100) as u8) == v,
{
}

proof fn lemma_be_u32(v: u32)
    ensures
        be_u32(
            (v / 0x100_0000) as u8,
            (v / 0x1_0000 % 0x100) as u8,
            (v / 0x100 % 0x100) as u8,
            (v % 0x100) as u8,
        ) == v,
{
    let a = v / 0x100_0000;
    let b = v / 0x1_0000 % 0x100;
    let c = v / 0x100 % 0x100;
    let d = v % 0x100;
    assert(v as int == a * 0x100_0000 + b * 0x1_0000 + c * 0x100 + d) by (nonlinear_arith)
        requires
            a == v / 0x100_0000,
            b == v / 0x1_0000 % 0x100,
            c == v / 0x100 % 0x100,
            d == v % 0x100,
    ;
}

proof fn lemma_signed_unsigned(a: i16)
    ensures
        as_signed(as_unsigned(a)) == a,
{
}

/// The identifier-and-payload bytes of every command that has a frame of
/// its own decode back to that command.
pub proof fn lemma_command_round_trip(c: CommandModel)
    requires
        is_encodable(c),
    ensures
        command_of(command_bytes(c)) == Some(c),
{
    let body = command_bytes(c);
    assert(body.skip(1) =~= match c {
        CommandModel::Identify(d) => d,
        CommandModel::QueueStep(i, k, a) => u32_bytes(i) + u16_bytes(k) + u16_bytes(as_unsigned(a)),
        CommandModel::SetDigitalOut(p, v) => seq![p, v],
        CommandModel::SetPwmOut(p, v) => seq![p] + u16_bytes(v),
        CommandModel::Unknown(_, b) => b,
        _ => body.skip(1),
    });
    match c {
        CommandModel::QueueStep(i, k, a) => {
            lemma_be_u32(i);
            lemma_be_u16(k);
            lemma_be_u16(as_unsigned(a));
            lemma_signed_unsigned(a);
        },
        CommandModel::SetPwmOut(p, v) => {
            lemma_be_u16(v);
        },
        _ => {},
    }
}

/// The frame of every command that has one parses back to that command,
/// taking exactly the frame's bytes.
pub proof fn lemma_parse_encoded(seq: u8, c: CommandModel)
    requires
        is_encodable(c),
        command_bytes(c).len() <= MAX_BODY,
    ensures
        parse_model(frame_of(seq, command_bytes(c))) == ParseModel::Parsed(
            c,
            frame_of(seq, command_bytes(c)).len() as int,
        ),
{
    let body = command_bytes(c);
    let f = frame_of(seq, body);
    let head = seq![(body.len() + 3) as u8, seq] + body;
    let n: int = body.len() as int + 3;
    assert(f[0] == SYNC_BYTE);
    assert(sync_index(f) == 0);
    assert(f.skip(0) =~= f);
    assert(f.len() == n + 2);
    assert(f[1] as int == n);
    assert(f.subrange(1, n) =~= head.subrange(0, n - 1));
    assert(head.len() == n - 1);
    assert(head.subrange(0, n - 1) =~= head);
    let crc = crc16_of(head);
    assert(f[n] == (crc / 0x100) as u8);
    assert(f[n + 1] == (crc % 0x100) as u8);
    lemma_be_u16(crc);
    assert(f.subrange(3, n) =~= body);
    lemma_command_round_trip(c);
}

/// A zero-copy parser of frames. It never allocates and never panics.
#[derive(Clone, Copy, Debug, Default)]
pub struct Parser;

impl Parser {
    /// Creates a parser.
    pub fn new() -> (r: Parser) {
        Parser
    }

    /// Parses the first frame of `input`. Returns the command and the bytes it
    /// took (leading noise included); `Ok(None)` where more bytes are needed,
    /// which includes a buffer that holds no sync byte yet; or an error and
    /// the number of bytes to discard before trying again.
    pub fn parse<'a>(&self, input: &'a [u8]) -> (r: Result<Option<(Message<'a>, usize)>, (Error, usize)>)
        ensures
            parse_result_model(r) == parse_model(input@),
            r matches Ok(Some((m, _))) ==> m is Command,
    {
        let k = find_sync(input);
        if k == input.len() {
            return Ok(None);
        }
        let ghost t = input@.skip(k as int);
        let (_, buffer) = input.split_at(k);
        assert(buffer@ =~= t);
        if buffer.len() < 2 {
            return Ok(None);
        }
        let n = buffer[1] as usize;
        if buffer.len() < n + 2 {
            return Ok(None);
        }
        if n < 4 {
            return Err((Error::IncompleteFrame, k + 1));
        }
        let (_, from_len) = buffer.split_at(1);
        assert(from_len@ =~= t.skip(1));
        let calculated = crc16_ccitt(from_len, n - 1);
        assert(from_len@.subrange(0, n - 1) =~= t.subrange(1, n as int));
        let received = read_be_u16(buffer[n], buffer[n + 1]);
        if received != calculated {
            return Err((Error::InvalidCrc, k + 1));
        }
        let (head, _) = buffer.split_at(n);
        let (_, body) = head.split_at(3);
        assert(body@ =~= t.subrange(3, n as int));
        match parse_command(body) {
            Some(c) => Ok(Some((Message::Command(c), k + n + 2))),
            None => Err((Error::InvalidPayload, k + 1)),
        }
    }
}

} // verus!
