//! The messages of the remote query service and their framing.
//!
//! A frame is one byte that says which message it holds, the length of the
//! payload in four bytes, and the payload.  `decode` accepts exactly the
//! frames that `encode` produces.
use crate::error::ErrorKind;
use crate::ids::{TabId, WindowId};
use crate::entry::{entry_views, TabEntry, TabEntryView};
use crate::size::TerminalSize;
use crate::text::word_views;
use crate::wire::{
    entries_fit, from, lemma_entries_parsed, lemma_numbers_parsed, lemma_parse_entries,
    lemma_parse_numbers, lemma_parse_words, lemma_words_parsed, parse_entries, parse_u16,
    parse_u32, parse_u64, parse_u8, parse_words, put_entries, put_u16, put_u32, put_u64,
    put_words, read_entries, read_u16, read_u32, read_u64, read_u8, read_words, ser_entries,
    ser_words, words_fit,
};
use vstd::bytes::{spec_u16_to_le_bytes, spec_u32_to_le_bytes, spec_u64_to_le_bytes};
use vstd::prelude::*;
use vstd::slice::slice_subrange;

verus! {

/// The version of the protocol that this library speaks.
pub const PROTOCOL_VERSION: u32 = 1;

/// A message of the protocol.
#[derive(Clone, Debug, PartialEq, Eq)]
pub enum Pdu {
    /// The handshake, in both directions: the version that the sender
    /// speaks.
    Hello { version: u32 },
    /// Request: list all tabs.
    ListTabs,
    /// Response to `ListTabs`.
    TabList { tabs: Vec<TabEntry> },
    /// Request: spawn a session of this size into the server's window
    /// `window_id`.  An empty command asks for the default program.
    Spawn { window_id: WindowId, size: TerminalSize, command: Vec<String> },
    /// Response to `Spawn`: the server's identifier of the new tab.
    Spawned { tab_id: TabId },
    /// Response: the request was refused.
    Failed { error: ErrorKind },
}

/// A `Pdu` as a mathematical value.
pub enum PduView {
    Hello { version: u32 },
    ListTabs,
    TabList { tabs: Seq<TabEntryView> },
    Spawn { window_id: WindowId, size: TerminalSize, command: Seq<Seq<char>> },
    Spawned { tab_id: TabId },
    Failed { error: ErrorKind },
}

impl View for Pdu {
    type V = PduView;

    open spec fn view(&self) -> PduView {
        match *self {
            Pdu::Hello { version } => PduView::Hello { version },
            Pdu::ListTabs => PduView::ListTabs,
            Pdu::TabList { tabs } => PduView::TabList { tabs: entry_views(tabs@) },
            Pdu::Spawn { window_id, size, command } => PduView::Spawn {
                window_id,
                size,
                command: word_views(command@),
            },
            Pdu::Spawned { tab_id } => PduView::Spawned { tab_id },
            Pdu::Failed { error } => PduView::Failed { error },
        }
    }
}

/// The byte that stands for an error kind.
pub open spec fn error_code(e: ErrorKind) -> u8 {
    match e {
        ErrorKind::ConnectionFailed => 1,
        ErrorKind::HandshakeFailed => 2,
        ErrorKind::ProtocolError => 3,
        ErrorKind::SpawnFailed => 4,
        ErrorKind::DuplicateDomain => 5,
        ErrorKind::UnknownDomain => 6,
        ErrorKind::UnknownWindow => 7,
    }
}

/// The error kind that a byte stands for.
pub open spec fn error_of_code(c: u8) -> Option<ErrorKind> {
    if c == 1 {
        Some(ErrorKind::ConnectionFailed)
    } else if c == 2 {
        Some(ErrorKind::HandshakeFailed)
    } else if c == 3 {
        Some(ErrorKind::ProtocolError)
    } else if c == 4 {
        Some(ErrorKind::SpawnFailed)
    } else if c == 5 {
        Some(ErrorKind::DuplicateDomain)
    } else if c == 6 {
        Some(ErrorKind::UnknownDomain)
    } else if c == 7 {
        Some(ErrorKind::UnknownWindow)
    } else {
        None
    }
}

impl PduView {
    /// The byte that says which message a frame holds.
    pub open spec fn kind(self) -> u8 {
        match self {
            PduView::Hello { .. } => 1,
            PduView::ListTabs => 2,
            PduView::TabList { .. } => 3,
            PduView::Spawn { .. } => 4,
            PduView::Spawned { .. } => 5,
            PduView::Failed { .. } => 6,
        }
    }

    /// The payload of the message.
    pub open spec fn payload(self) -> Seq<u8> {
        match self {
            PduView::Hello { version } => spec_u32_to_le_bytes(version),
            PduView::ListTabs => Seq::empty(),
            PduView::TabList { tabs } => spec_u32_to_le_bytes(tabs.len() as u32) + ser_entries(tabs),
            PduView::Spawn { window_id, size, command } => spec_u64_to_le_bytes(window_id)
                + spec_u16_to_le_bytes(size.cols) + spec_u16_to_le_bytes(size.rows)
                + spec_u32_to_le_bytes(command.len() as u32) + ser_words(command),
            PduView::Spawned { tab_id } => spec_u64_to_le_bytes(tab_id),
            PduView::Failed { error } => seq![error_code(error)],
        }
    }

    /// Every count and length of the message fits into four bytes.
    pub open spec fn encodable(self) -> bool {
        &&& self.payload().len() <= u32::MAX
        &&& match self {
            PduView::TabList { tabs } => tabs.len() <= u32::MAX && entries_fit(tabs),
            PduView::Spawn { command, .. } => command.len() <= u32::MAX && words_fit(command),
            _ => true,
        }
    }

    /// The message as a frame.
    pub open spec fn frame(self) -> Seq<u8> {
        seq![self.kind()] + spec_u32_to_le_bytes(self.payload().len() as u32) + self.payload()
    }
}

/// The message of kind `kind` whose payload is exactly `b`.
pub open spec fn parse_payload(kind: u8, b: Seq<u8>) -> Option<PduView> {
    if kind == 1 {
        match parse_u32(b) {
            Some((version, rest)) => if rest.len() == 0 {
                Some(PduView::Hello { version })
            } else {
                None
            },
            None => None,
        }
    } else if kind == 2 {
        if b.len() == 0 {
            Some(PduView::ListTabs)
        } else {
            None
        }
    } else if kind == 3 {
        match parse_u32(b) {
            Some((count, b1)) => match parse_entries(b1, count as nat) {
                Some((tabs, rest)) => if rest.len() == 0 {
                    Some(PduView::TabList { tabs })
                } else {
                    None
                },
                None => None,
            },
            None => None,
        }
    } else if kind == 4 {
        match parse_u64(b) {
            Some((window_id, b1)) => match parse_u16(b1) {
                Some((cols, b2)) => match parse_u16(b2) {
                    Some((rows, b3)) => match parse_u32(b3) {
                        Some((count, b4)) => match parse_words(b4, count as nat) {
                            Some((command, rest)) => if rest.len() == 0 {
                                Some(
                                    PduView::Spawn {
                                        window_id,
                                        size: TerminalSize { cols, rows },
                                        command,
                                    },
                                )
                            } else {
                                None
                            },
                            None => None,
                        },
                        None => None,
                    },
                    None => None,
                },
                None => None,
            },
            None => None,
        }
    } else if kind == 5 {
        match parse_u64(b) {
            Some((tab_id, rest)) => if rest.len() == 0 {
                Some(PduView::Spawned { tab_id })
            } else {
                None
            },
            None => None,
        }
    } else if kind == 6 {
        match parse_u8(b) {
            Some((code, rest)) => match error_of_code(code) {
                Some(error) => if rest.len() == 0 {
                    Some(PduView::Failed { error })
                } else {
                    None
                },
                None => None,
            },
            None => None,
        }
    } else {
        None
    }
}

/// What the front of a byte stream holds.
pub enum Parsed {
    /// A frame of `used` bytes that holds `pdu`.
    Frame { pdu: PduView, used: nat },
    /// The start of a frame; more bytes are needed.
    Incomplete,
    /// A whole frame that holds no message.
    Malformed,
}

/// What the front of `b` holds.
pub open spec fn parse_frame(b: Seq<u8>) -> Parsed {
    match parse_u8(b) {
        None => Parsed::Incomplete,
        Some((kind, b1)) => match parse_u32(b1) {
            None => Parsed::Incomplete,
            Some((n, b2)) => if b2.len() < n {
                Parsed::Incomplete
            } else {
                match parse_payload(kind, b2.take(n as int)) {
                    Some(pdu) => Parsed::Frame { pdu, used: (5 + n) as nat },
                    None => Parsed::Malformed,
                }
            },
        },
    }
}

/// Reading the payload of a message gives the message back.
pub proof fn lemma_parse_payload(p: PduView)
    requires
        p.encodable(),
    ensures
        parse_payload(p.kind(), p.payload()) == Some(p),
{
    let none = Seq::<u8>::empty();
    match p {
        PduView::Hello { version } => {
            lemma_parse_numbers(none);
            assert(p.payload() =~= spec_u32_to_le_bytes(version) + none);
        },
        PduView::ListTabs => {},
        PduView::TabList { tabs } => {
            let body = ser_entries(tabs) + none;
            assert(parse_entries(body, tabs.len()) == Some((tabs, none))) by {
                lemma_parse_entries(tabs, none);
            }
            assert(parse_u32(spec_u32_to_le_bytes(tabs.len() as u32) + body) == Some(
                (tabs.len() as u32, body),
            )) by {
                lemma_parse_numbers(body);
            }
            assert(p.payload() =~= spec_u32_to_le_bytes(tabs.len() as u32) + body);
        },
        PduView::Spawn { window_id, size, command } => {
            let b4 = ser_words(command) + none;
            let b3 = spec_u32_to_le_bytes(command.len() as u32) + b4;
            let b2 = spec_u16_to_le_bytes(size.rows) + b3;
            let b1 = spec_u16_to_le_bytes(size.cols) + b2;
            let b0 = spec_u64_to_le_bytes(window_id) + b1;
            assert(parse_words(b4, command.len()) == Some((command, none))) by {
                lemma_parse_words(command, none);
            }
            assert(parse_u32(b3) == Some((command.len() as u32, b4))) by {
                lemma_parse_numbers(b4);
            }
            assert(parse_u16(b2) == Some((size.rows, b3))) by {
                lemma_parse_numbers(b3);
            }
            assert(parse_u16(b1) == Some((size.cols, b2))) by {
                lemma_parse_numbers(b2);
            }
            assert(parse_u64(b0) == Some((window_id, b1))) by {
                lemma_parse_numbers(b1);
            }
            assert(p.payload() == b0) by {
                assert(p.payload() =~= b0);
            }
        },
        PduView::Spawned { tab_id } => {
            lemma_parse_numbers(none);
            assert(p.payload() =~= spec_u64_to_le_bytes(tab_id) + none);
        },
        PduView::Failed { error } => {
            assert(p.payload().skip(1) =~= none);
        },
    }
}

/// What was read as a message has exactly the bytes that were read as its
/// payload.
pub proof fn lemma_payload_parsed(kind: u8, b: Seq<u8>)
    requires
        b.len() <= u32::MAX,
    ensures
        parse_payload(kind, b) matches Some(p) ==> p.encodable() && p.kind() == kind && p.payload() == b,
{
    if let Some(p) = parse_payload(kind, b) {
        let none = Seq::<u8>::empty();
        match p {
            PduView::Hello { version } => {
                lemma_numbers_parsed(b);
                let (v, rest) = parse_u32(b).unwrap();
                assert(rest =~= none);
                assert(b =~= p.payload());
            },
            PduView::ListTabs => {
                assert(b =~= p.payload());
            },
            PduView::TabList { tabs } => {
                let (count, b1) = parse_u32(b).unwrap();
                let (entries, rest) = parse_entries(b1, count as nat).unwrap();
                assert(b == spec_u32_to_le_bytes(count) + b1) by {
                    lemma_numbers_parsed(b);
                }
                assert(entries.len() == count && entries_fit(entries) && b1 == ser_entries(entries)
                    + rest) by {
                    lemma_entries_parsed(b1, count as nat);
                }
                assert(rest =~= none);
                assert(b =~= p.payload());
            },
            PduView::Spawn { window_id, size, command } => {
                let (w, b1) = parse_u64(b).unwrap();
                let (cols, b2) = parse_u16(b1).unwrap();
                let (rows, b3) = parse_u16(b2).unwrap();
                let (count, b4) = parse_u32(b3).unwrap();
                let (words, rest) = parse_words(b4, count as nat).unwrap();
                assert(b == spec_u64_to_le_bytes(w) + b1) by {
                    lemma_numbers_parsed(b);
                }
                assert(b1 == spec_u16_to_le_bytes(cols) + b2) by {
                    lemma_numbers_parsed(b1);
                }
                assert(b2 == spec_u16_to_le_bytes(rows) + b3) by {
                    lemma_numbers_parsed(b2);
                }
                assert(b3 == spec_u32_to_le_bytes(count) + b4) by {
                    lemma_numbers_parsed(b3);
                }
                assert(words.len() == count && words_fit(words) && b4 == ser_words(words) + rest) by {
                    lemma_words_parsed(b4, count as nat);
                }
                assert(rest =~= none);
                assert(b == p.payload()) by {
                    assert(b =~= p.payload());
                }
            },
            PduView::Spawned { tab_id } => {
                lemma_numbers_parsed(b);
                let (v, rest) = parse_u64(b).unwrap();
                assert(rest =~= none);
                assert(b =~= p.payload());
            },
            PduView::Failed { error } => {
                assert(b =~= p.payload());
            },
        }
    }
}

/// Decoding inverts encoding: the front of a stream that starts with the
/// frame of a message holds that message, whatever follows the frame.
pub proof fn lemma_decode_encode(p: PduView, rest: Seq<u8>)
    requires
        p.encodable(),
    ensures
        parse_frame(p.frame() + rest) == (Parsed::Frame { pdu: p, used: p.frame().len() }),
{
    let n = p.payload().len() as u32;
    let b2 = p.payload() + rest;
    let b1 = spec_u32_to_le_bytes(n) + b2;
    let b = p.frame() + rest;
    assert(b =~= seq![p.kind()] + b1);
    assert(b.skip(1) =~= b1);
    assert(parse_u32(b1) == Some((n, b2))) by {
        lemma_parse_numbers(b2);
    }
    assert(b2.take(n as int) =~= p.payload());
    lemma_parse_payload(p);
    assert(spec_u32_to_le_bytes(n).len() == 4) by {
        vstd::bytes::lemma_auto_spec_u32_to_from_le_bytes();
    }
}

/// Only frames decode: where the front of a stream holds a message, the
/// bytes that were used are the frame of that message.
pub proof fn lemma_decoded_is_frame(b: Seq<u8>)
    ensures
        parse_frame(b) matches Parsed::Frame { pdu, used } ==> pdu.encodable() && used <= b.len()
            && b.take(used as int) == pdu.frame(),
{
    if let Parsed::Frame { pdu, used } = parse_frame(b) {
        let (kind, b1) = parse_u8(b).unwrap();
        let (n, b2) = parse_u32(b1).unwrap();
        lemma_payload_parsed(kind, b2.take(n as int));
        assert(b1 == spec_u32_to_le_bytes(n) + b2) by {
            lemma_numbers_parsed(b1);
        }
        assert(spec_u32_to_le_bytes(n).len() == 4) by {
            vstd::bytes::lemma_auto_spec_u32_to_from_le_bytes();
        }
        let payload = b2.take(n as int);
        assert(pdu.payload() == payload);
        assert(payload.len() == n);
        assert(b =~= seq![kind] + b1);
        assert(b.take(used as int) =~= seq![kind] + spec_u32_to_le_bytes(n) + payload);
    }
}

/// The byte that stands for an error kind.
pub fn error_to_code(e: ErrorKind) -> (c: u8)
    ensures
        c == error_code(e),
        error_of_code(c) == Some(e),
{
    match e {
        ErrorKind::ConnectionFailed => 1,
        ErrorKind::HandshakeFailed => 2,
        ErrorKind::ProtocolError => 3,
        ErrorKind::SpawnFailed => 4,
        ErrorKind::DuplicateDomain => 5,
        ErrorKind::UnknownDomain => 6,
        ErrorKind::UnknownWindow => 7,
    }
}

/// The error kind that a byte stands for.
pub fn error_from_code(c: u8) -> (e: Option<ErrorKind>)
    ensures
        e == error_of_code(c),
        e matches Some(kind) ==> error_code(kind) == c,
{
    if c == 1 {
        Some(ErrorKind::ConnectionFailed)
    } else if c == 2 {
        Some(ErrorKind::HandshakeFailed)
    } else if c == 3 {
        Some(ErrorKind::ProtocolError)
    } else if c == 4 {
        Some(ErrorKind::SpawnFailed)
    } else if c == 5 {
        Some(ErrorKind::DuplicateDomain)
    } else if c == 6 {
        Some(ErrorKind::UnknownDomain)
    } else if c == 7 {
        Some(ErrorKind::UnknownWindow)
    } else {
        None
    }
}

impl Pdu {
    /// The byte that says which message a frame holds.
    pub fn kind(&self) -> (k: u8)
        ensures
            k == self@.kind(),
    {
        match self {
            Pdu::Hello { .. } => 1,
            Pdu::ListTabs => 2,
            Pdu::TabList { .. } => 3,
            Pdu::Spawn { .. } => 4,
            Pdu::Spawned { .. } => 5,
            Pdu::Failed { .. } => 6,
        }
    }

    /// The payload of the message, if its counts and lengths fit.
    fn payload(&self) -> (r: Option<Vec<u8>>)
        ensures
            match r {
                Some(bytes) => bytes@ == self@.payload() && match self@ {
                    PduView::TabList { tabs } => tabs.len() <= u32::MAX && entries_fit(tabs),
                    PduView::Spawn { command, .. } => command.len() <= u32::MAX && words_fit(command),
                    _ => true,
                },
                None => !self@.encodable(),
            },
    {
        let mut out: Vec<u8> = Vec::new();
        match self {
            Pdu::Hello { version } => {
                put_u32(&mut out, *version);
            },
            Pdu::ListTabs => {},
            Pdu::TabList { tabs } => {
                if tabs.len() > u32::MAX as usize {
                    return None;
                }
                put_u32(&mut out, tabs.len() as u32);
                if !put_entries(&mut out, tabs) {
                    return None;
                }
            },
            Pdu::Spawn { window_id, size, command } => {
                if command.len() > u32::MAX as usize {
                    return None;
                }
                put_u64(&mut out, *window_id);
                put_u16(&mut out, size.cols);
                put_u16(&mut out, size.rows);
                put_u32(&mut out, command.len() as u32);
                if !put_words(&mut out, command) {
                    return None;
                }
            },
            Pdu::Spawned { tab_id } => {
                put_u64(&mut out, *tab_id);
            },
            Pdu::Failed { error } => {
                out.push(error_to_code(*error));
            },
        }
        proof {
            assert(out@ =~= self@.payload());
        }
        Some(out)
    }
}

/// The frame of a message, if its counts and lengths fit into four bytes
/// each.
pub fn encode(pdu: &Pdu) -> (r: Option<Vec<u8>>)
    ensures
        match r {
            Some(bytes) => pdu@.encodable() && bytes@ == pdu@.frame(),
            None => !pdu@.encodable(),
        },
{
    let mut payload = match pdu.payload() {
        None => { return None; },
        Some(p) => p,
    };
    if payload.len() > u32::MAX as usize {
        return None;
    }
    let mut out: Vec<u8> = Vec::new();
    out.push(pdu.kind());
    put_u32(&mut out, payload.len() as u32);
    out.append(&mut payload);
    proof {
        assert(out@ =~= pdu@.frame());
    }
    Some(out)
}

/// What `decode` found at the front of the bytes.
#[derive(Clone, Debug, PartialEq, Eq)]
pub enum Decoded {
    /// A frame of `used` bytes that holds `pdu`.
    Frame { pdu: Pdu, used: usize },
    /// The start of a frame; more bytes are needed.
    Incomplete,
    /// A whole frame that holds no message.
    Malformed,
}

impl Decoded {
    pub open spec fn parsed(&self) -> Parsed {
        match *self {
            Decoded::Frame { pdu, used } => Parsed::Frame { pdu: pdu@, used: used as nat },
            Decoded::Incomplete => Parsed::Incomplete,
            Decoded::Malformed => Parsed::Malformed,
        }
    }
}

/// The message of kind `kind` whose payload is exactly `payload`.
fn decode_payload(kind: u8, payload: &[u8]) -> (r: Option<Pdu>)
    ensures
        match r {
            Some(pdu) => parse_payload(kind, payload@) == Some(pdu@),
            None => parse_payload(kind, payload@) is None,
        },
{
    let end = payload.len();
    proof {
        assert(from(payload, 0) =~= payload@);
    }
    if kind == 1 {
        match read_u32(payload, 0) {
            Some((version, next)) => if next == end {
                Some(Pdu::Hello { version })
            } else {
                None
            },
            None => None,
        }
    } else if kind == 2 {
        if end == 0 {
            Some(Pdu::ListTabs)
        } else {
            None
        }
    } else if kind == 3 {
        match read_u32(payload, 0) {
            Some((count, p1)) => match read_entries(payload, p1, count) {
                Some((tabs, next)) => if next == end {
                    Some(Pdu::TabList { tabs })
                } else {
                    None
                },
                None => None,
            },
            None => None,
        }
    } else if kind == 4 {
        let (window_id, p1) = match read_u64(payload, 0) {
            None => { return None; },
            Some(r) => r,
        };
        let (cols, p2) = match read_u16(payload, p1) {
            None => { return None; },
            Some(r) => r,
        };
        let (rows, p3) = match read_u16(payload, p2) {
            None => { return None; },
            Some(r) => r,
        };
        let (count, p4) = match read_u32(payload, p3) {
            None => { return None; },
            Some(r) => r,
        };
        match read_words(payload, p4, count) {
            Some((command, next)) => if next == end {
                Some(Pdu::Spawn { window_id, size: TerminalSize { cols, rows }, command })
            } else {
                None
            },
            None => None,
        }
    } else if kind == 5 {
        match read_u64(payload, 0) {
            Some((tab_id, next)) => if next == end {
                Some(Pdu::Spawned { tab_id })
            } else {
                None
            },
            None => None,
        }
    } else if kind == 6 {
        match read_u8(payload, 0) {
            Some((code, next)) => match error_from_code(code) {
                Some(error) => if next == end {
                    Some(Pdu::Failed { error })
                } else {
                    None
                },
                None => None,
            },
            None => None,
        }
    } else {
        None
    }
}

/// Reads one frame from the front of `bytes`.
pub fn decode(bytes: &[u8]) -> (r: Decoded)
    ensures
        r.parsed() == parse_frame(bytes@),
{
    proof {
        assert(from(bytes, 0) =~= bytes@);
    }
    let (kind, p1) = match read_u8(bytes, 0) {
        None => { return Decoded::Incomplete; },
        Some(r) => r,
    };
    let (n, p2) = match read_u32(bytes, p1) {
        None => { return Decoded::Incomplete; },
        Some(r) => r,
    };
    if bytes.len() - p2 < n as usize {
        return Decoded::Incomplete;
    }
    let end = p2 + n as usize;
    let payload = slice_subrange(bytes, p2, end);
    proof {
        assert(from(bytes, p2).take(n as int) =~= payload@);
        assert(p2 == 5);
    }
    match decode_payload(kind, payload) {
        Some(pdu) => Decoded::Frame { pdu, used: end },
        None => Decoded::Malformed,
    }
}

/// What a receiver makes of the bytes that it has: nothing yet, while the
/// frame is incomplete and the stream is open; the message; or the error
/// to report.  A stream that ends within a frame is a lost connection, and
/// a whole frame that holds no message is a protocol error.
pub fn receive(bytes: &[u8], stream_ended: bool) -> (r: Option<Result<(Pdu, usize), ErrorKind>>)
    ensures
        match parse_frame(bytes@) {
            Parsed::Frame { pdu, used } => r matches Some(Ok((got, n))) && got@ == pdu && n == used,
            Parsed::Incomplete => if stream_ended {
                r == Some(Err::<(Pdu, usize), ErrorKind>(ErrorKind::ConnectionFailed))
            } else {
                r is None
            },
            Parsed::Malformed => r == Some(Err::<(Pdu, usize), ErrorKind>(ErrorKind::ProtocolError)),
        },
{
    match decode(bytes) {
        Decoded::Frame { pdu, used } => Some(Ok((pdu, used))),
        Decoded::Incomplete => if stream_ended {
            Some(Err(ErrorKind::ConnectionFailed))
        } else {
            None
        },
        Decoded::Malformed => Some(Err(ErrorKind::ProtocolError)),
    }
}

/// The outcome of the handshake, from the server's reply: the versions
/// have to agree.
pub open spec fn handshake_result(reply: PduView) -> Result<(), ErrorKind> {
    match reply {
        PduView::Hello { version } => if version == PROTOCOL_VERSION {
            Ok(())
        } else {
            Err(ErrorKind::HandshakeFailed)
        },
        PduView::Failed { error: ErrorKind::HandshakeFailed } => Err(ErrorKind::HandshakeFailed),
        _ => Err(ErrorKind::ProtocolError),
    }
}

/// The outcome of the handshake, from the server's reply.
pub fn check_handshake(reply: &Pdu) -> (r: Result<(), ErrorKind>)
    ensures
        r == handshake_result(reply@),
{
    match reply {
        Pdu::Hello { version } => if *version == PROTOCOL_VERSION {
            Ok(())
        } else {
            Err(ErrorKind::HandshakeFailed)
        },
        Pdu::Failed { error: ErrorKind::HandshakeFailed } => Err(ErrorKind::HandshakeFailed),
        _ => Err(ErrorKind::ProtocolError),
    }
}

/// The tabs that the server listed, from its reply to `ListTabs`.  A
/// refusal is handed on; any other message is a protocol error.
pub fn list_tabs_result(reply: Pdu) -> (r: Result<Vec<TabEntry>, ErrorKind>)
    ensures
        match reply@ {
            PduView::TabList { tabs } => r matches Ok(got) && entry_views(got@) == tabs,
            PduView::Failed { error } => r == Err::<Vec<TabEntry>, ErrorKind>(error),
            _ => r == Err::<Vec<TabEntry>, ErrorKind>(ErrorKind::ProtocolError),
        },
{
    match reply {
        Pdu::TabList { tabs } => Ok(tabs),
        Pdu::Failed { error } => Err(error),
        _ => Err(ErrorKind::ProtocolError),
    }
}

/// The server's identifier of the spawned tab, from its reply to `Spawn`.
/// A refusal is a failed spawn; any other message is a protocol error.
pub fn spawn_result(reply: &Pdu) -> (r: Result<TabId, ErrorKind>)
    ensures
        r == match reply@ {
            PduView::Spawned { tab_id } => Ok::<TabId, ErrorKind>(tab_id),
            PduView::Failed { .. } => Err(ErrorKind::SpawnFailed),
            _ => Err(ErrorKind::ProtocolError),
        },
{
    match reply {
        Pdu::Spawned { tab_id } => Ok(*tab_id),
        Pdu::Failed { .. } => Err(ErrorKind::SpawnFailed),
        _ => Err(ErrorKind::ProtocolError),
    }
}

/// A stream is read in one way only: two messages whose frames start the
/// same stream are the same message, and leave the same bytes behind.
pub proof fn lemma_frames_are_unambiguous(p: PduView, q: PduView, after_p: Seq<u8>, after_q: Seq<u8>)
    requires
        p.encodable(),
        q.encodable(),
        p.frame() + after_p == q.frame() + after_q,
    ensures
        p == q,
        after_p == after_q,
{
    lemma_decode_encode(p, after_p);
    lemma_decode_encode(q, after_q);
    let n = p.frame().len() as int;
    assert((p.frame() + after_p).skip(n) =~= after_p);
    assert((q.frame() + after_q).skip(n) =~= after_q);
}

/// What was decided stays decided: once the front of a stream holds a
/// message, or a whole frame that holds none, bytes that arrive later do
/// not change that.
pub proof fn lemma_decision_is_final(b: Seq<u8>, more: Seq<u8>)
    requires
        !(parse_frame(b) is Incomplete),
    ensures
        parse_frame(b + more) == parse_frame(b),
{
    let (kind, b1) = parse_u8(b).unwrap();
    let (n, b2) = parse_u32(b1).unwrap();
    let c = b + more;
    assert(c.skip(1) =~= b1 + more);
    assert((b1 + more).take(4) =~= b1.take(4));
    assert((b1 + more).skip(4) =~= b2 + more);
    assert((b2 + more).take(n as int) =~= b2.take(n as int));
}

} // verus!
