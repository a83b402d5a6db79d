use std::collections::VecDeque;
use vstd::prelude::*;
use vstd::utf8::*;

use crate::status::{append, owned};
use crate::text::{decimal_text, push_decimal_text, string_from_utf8};

verus! {

broadcast use {encode_utf8_valid_utf8, encode_utf8_decode_utf8, decode_utf8_encode_utf8};

pub const PROTOCOL_VERSION: u8 = 2;

pub const MAX_FRAME_SIZE: usize = 1048576;

pub const MAX_QUEUE_ITEMS: usize = 256;

pub const MAX_QUEUE_BYTES: usize = 4194304;

/// Bytes of the big-endian body length that starts every frame.
pub const PREFIX_SIZE: usize = 4;

/// Bytes of the protocol version and message kind that start every body.
pub const HEADER_SIZE: usize = 2;

#[verifier::external_type_specification]
#[verifier::external_body]
pub struct ExIoError(std::io::Error);

/// A message between a client and the session server.
#[derive(Clone, Debug, PartialEq, Eq)]
pub enum Message {
    Attach { columns: u16, rows: u16, profile: u8, color: u8 },
    Detach,
    Input(Vec<u8>),
    Resize { columns: u16, rows: u16 },
    Attached,
    Screen(Vec<u8>),
    Error(String),
    StatusRequest,
    Status { pid: u32, attached_clients: u32 },
    Kill,
    Terminating,
}

/// A message with its byte strings and text taken as sequences.
pub enum MessageView {
    Attach { columns: u16, rows: u16, profile: u8, color: u8 },
    Detach,
    Input(Seq<u8>),
    Resize { columns: u16, rows: u16 },
    Attached,
    Screen(Seq<u8>),
    Error(Seq<char>),
    StatusRequest,
    Status { pid: u32, attached_clients: u32 },
    Kill,
    Terminating,
}

impl View for Message {
    type V = MessageView;

    open spec fn view(&self) -> MessageView {
        match self {
            Message::Attach { columns, rows, profile, color } => MessageView::Attach {
                columns: *columns,
                rows: *rows,
                profile: *profile,
                color: *color,
            },
            Message::Detach => MessageView::Detach,
            Message::Input(bytes) => MessageView::Input(bytes@),
            Message::Resize { columns, rows } => MessageView::Resize {
                columns: *columns,
                rows: *rows,
            },
            Message::Attached => MessageView::Attached,
            Message::Screen(bytes) => MessageView::Screen(bytes@),
            Message::Error(text) => MessageView::Error(text@),
            Message::StatusRequest => MessageView::StatusRequest,
            Message::Status { pid, attached_clients } => MessageView::Status {
                pid: *pid,
                attached_clients: *attached_clients,
            },
            Message::Kill => MessageView::Kill,
            Message::Terminating => MessageView::Terminating,
        }
    }
}

#[derive(Debug)]
pub enum ProtocolError {
    Io(std::io::Error),
    FrameTooLarge,
    Malformed(&'static str),
    UnsupportedVersion(u8),
    UnsupportedMessage(u8),
    QueueFull,
}

/// The text that `std::io::Error`'s `Display` writes; it names the operating
/// system's error, so nothing is stated of it.
#[verifier::external_body]
fn io_error_text(error: &std::io::Error) -> String {
    error.to_string()
}

impl ProtocolError {
    /// The error as a sentence for the user.
    pub fn message(&self) -> (r: String)
        ensures
            match self {
                ProtocolError::Io(_) => "IPC error: "@.is_prefix_of(r@),
                ProtocolError::FrameTooLarge => r@ == "IPC frame exceeds 1 MiB"@,
                ProtocolError::Malformed(reason) => r@ == "malformed IPC frame: "@ + reason@,
                ProtocolError::UnsupportedVersion(version) => r@ == "unsupported IPC protocol version "@
                    + decimal_text(*version as nat),
                ProtocolError::UnsupportedMessage(kind) => r@ == "unsupported IPC message "@ + decimal_text(
                    *kind as nat,
                ),
                ProtocolError::QueueFull => r@ == "IPC client queue limit reached"@,
            },
    {
        match self {
            ProtocolError::Io(error) => {
                let mut text = owned("IPC error: ");
                let detail = io_error_text(error);
                append(&mut text, detail.as_str());
                text
            },
            ProtocolError::FrameTooLarge => owned("IPC frame exceeds 1 MiB"),
            ProtocolError::Malformed(reason) => {
                let mut text = owned("malformed IPC frame: ");
                append(&mut text, reason);
                text
            },
            ProtocolError::UnsupportedVersion(version) => {
                let mut text = owned("unsupported IPC protocol version ");
                push_decimal_text(&mut text, *version as u64);
                text
            },
            ProtocolError::UnsupportedMessage(kind) => {
                let mut text = owned("unsupported IPC message ");
                push_decimal_text(&mut text, *kind as u64);
                text
            },
            ProtocolError::QueueFull => owned("IPC client queue limit reached"),
        }
    }
}

// ---------------------------------------------------------------------------
// The wire format.
pub open spec fn be16(value: u16) -> Seq<u8> {
    seq![(value / 256) as u8, (value % 256) as u8]
}

pub open spec fn be32(value: u32) -> Seq<u8> {
    seq![
        (value / 0x1000000) as u8,
        ((value / 0x10000) % 256) as u8,
        ((value / 0x100) % 256) as u8,
        (value % 256) as u8,
    ]
}

pub open spec fn from_be16(high: u8, low: u8) -> u16 {
    (high * 256 + low) as u16
}

pub open spec fn from_be32(bytes: Seq<u8>) -> u32 {
    (bytes[0] * 0x1000000 + bytes[1] * 0x10000 + bytes[2] * 0x100 + bytes[3]) as u32
}

impl MessageView {
    /// The kind byte of the message.
    pub open spec fn kind(self) -> u8 {
        match self {
            MessageView::Attach { .. } => 1,
            MessageView::Detach => 2,
            MessageView::Input(_) => 3,
            MessageView::Resize { .. } => 4,
            MessageView::Attached => 5,
            MessageView::Screen(_) => 6,
            MessageView::Error(_) => 7,
            MessageView::StatusRequest => 8,
            MessageView::Status { .. } => 9,
            MessageView::Kill => 10,
            MessageView::Terminating => 11,
        }
    }

    /// The bytes after the header: the payload or the fixed fields.
    pub open spec fn fields(self) -> Seq<u8> {
        match self {
            MessageView::Attach { columns, rows, profile, color } => be16(columns) + be16(rows)
                + seq![profile, color],
            MessageView::Input(bytes) => bytes,
            MessageView::Resize { columns, rows } => be16(columns) + be16(rows),
            MessageView::Screen(bytes) => bytes,
            MessageView::Error(text) => encode_utf8(text),
            MessageView::Status { pid, attached_clients } => be32(pid) + be32(attached_clients),
            _ => Seq::empty(),
        }
    }

    /// The body of the frame: version, kind, then the fields.
    pub open spec fn body(self) -> Seq<u8> {
        seq![PROTOCOL_VERSION, self.kind()] + self.fields()
    }

    /// The whole frame: the body length in four big-endian bytes, then the body.
    pub open spec fn frame(self) -> Seq<u8> {
        be32(self.body().len() as u32) + self.body()
    }

    /// The frame stays within the frame size limit.
    pub open spec fn fits(self) -> bool {
        self.body().len() <= MAX_FRAME_SIZE - PREFIX_SIZE
    }

    /// Terminal sizes carried by the message are non-zero.
    pub open spec fn valid(self) -> bool {
        match self {
            MessageView::Attach { columns, rows, .. } => columns != 0 && rows != 0,
            MessageView::Resize { columns, rows } => columns != 0 && rows != 0,
            _ => true,
        }
    }
}

/// Why a body with a supported version and kind that no valid message has is rejected.
pub open spec fn malformed_reason(body: Seq<u8>) -> &'static str {
    let payload_len = body.len() - HEADER_SIZE;
    if body[1] == 1 {
        if payload_len != 6 {
            "attach must contain terminal size and profile"
        } else {
            "terminal size must be non-zero"
        }
    } else if body[1] == 4 {
        if payload_len != 4 {
            "terminal size must contain four bytes"
        } else {
            "terminal size must be non-zero"
        }
    } else if body[1] == 7 {
        "error message is not UTF-8"
    } else {
        "message has an unexpected payload"
    }
}

/// What decoding the frame body `body` gives.
pub open spec fn decode_outcome(body: Seq<u8>, r: Result<Message, ProtocolError>) -> bool {
    if body[0] != PROTOCOL_VERSION {
        r matches Err(ProtocolError::UnsupportedVersion(version)) && version == body[0]
    } else if !(1 <= body[1] <= 11) {
        r matches Err(ProtocolError::UnsupportedMessage(kind)) && kind == body[1]
    } else if exists|m: MessageView| m.valid() && m.body() == body {
        r matches Ok(message) && message@.valid() && message@.body() == body
    } else {
        r matches Err(ProtocolError::Malformed(reason)) && reason == malformed_reason(body)
    }
}

proof fn lemma_be16(value: u16)
    ensures
        from_be16(be16(value)[0], be16(value)[1]) == value,
{
    assert(value == (value / 256) * 256 + value % 256) by (nonlinear_arith);
}

proof fn lemma_from_be16(high: u8, low: u8)
    ensures
        be16(from_be16(high, low)) == seq![high, low],
{
    let v = from_be16(high, low);
    assert(v == high * 256 + low) by (nonlinear_arith)
        requires
            v == (high * 256 + low) as u16,
            high < 256,
            low < 256,
    ;
    assert(v / 256 == high && v % 256 == low) by (nonlinear_arith)
        requires
            v == high * 256 + low,
            high < 256,
            low < 256,
    ;
    assert(be16(v) =~= seq![high, low]);
}

proof fn lemma_be32(value: u32)
    ensures
        from_be32(be32(value)) == value,
{
    let b = be32(value);
    assert(value == (value / 0x1000000) * 0x1000000 + ((value / 0x10000) % 256) * 0x10000 + ((
    value / 0x100) % 256) * 0x100 + value % 256) by (nonlinear_arith);
    assert(b[0] == value / 0x1000000);
}

proof fn lemma_from_be32(bytes: Seq<u8>)
    requires
        bytes.len() == 4,
    ensures
        be32(from_be32(bytes)) == bytes,
{
    let v = from_be32(bytes);
    let (b0, b1, b2, b3) = (bytes[0], bytes[1], bytes[2], bytes[3]);
    assert(v == b0 * 0x1000000 + b1 * 0x10000 + b2 * 0x100 + b3) by (nonlinear_arith)
        requires
            v == (b0 * 0x1000000 + b1 * 0x10000 + b2 * 0x100 + b3) as u32,
            b0 < 256,
            b1 < 256,
            b2 < 256,
            b3 < 256,
    ;
    assert(v / 0x1000000 == b0 && (v / 0x10000) % 256 == b1 && (v / 0x100) % 256 == b2 && v % 256
        == b3) by (nonlinear_arith)
        requires
            v == b0 * 0x1000000 + b1 * 0x10000 + b2 * 0x100 + b3,
            b0 < 256,
            b1 < 256,
            b2 < 256,
            b3 < 256,
    ;
    assert(be32(v) =~= bytes);
}

/// The shape of a body: header first, fields after.
proof fn lemma_body_shape(m: MessageView)
    ensures
        m.body().len() == HEADER_SIZE + m.fields().len(),
        m.body()[0] == PROTOCOL_VERSION,
        m.body()[1] == m.kind(),
        m.body().subrange(2, m.body().len() as int) == m.fields(),
        1 <= m.kind() <= 11,
{
    assert(m.body().subrange(2, m.body().len() as int) =~= m.fields());
}

/// A message is determined by its body.
pub proof fn lemma_body_determines_message(a: MessageView, b: MessageView)
    requires
        a.body() == b.body(),
    ensures
        a == b,
{
    lemma_body_shape(a);
    lemma_body_shape(b);
    assert(a.kind() == b.kind());
    assert(a.fields() == b.fields());
    let f = a.fields();
    match (a, b) {
        (
            MessageView::Attach { columns: c1, rows: r1, profile: p1, color: k1 },
            MessageView::Attach { columns: c2, rows: r2, profile: p2, color: k2 },
        ) => {
            lemma_be16(c1);
            lemma_be16(r1);
            lemma_be16(c2);
            lemma_be16(r2);
            assert(be16(c1)[0] == f[0] && be16(c2)[0] == f[0]);
            assert(be16(c1)[1] == f[1] && be16(c2)[1] == f[1]);
            assert(be16(r1)[0] == f[2] && be16(r2)[0] == f[2]);
            assert(be16(r1)[1] == f[3] && be16(r2)[1] == f[3]);
            assert(p1 == f[4] && p2 == f[4]);
            assert(k1 == f[5] && k2 == f[5]);
        },
        (
            MessageView::Resize { columns: c1, rows: r1 },
            MessageView::Resize { columns: c2, rows: r2 },
        ) => {
            lemma_be16(c1);
            lemma_be16(r1);
            lemma_be16(c2);
            lemma_be16(r2);
            assert(be16(c1)[0] == f[0] && be16(c2)[0] == f[0]);
            assert(be16(c1)[1] == f[1] && be16(c2)[1] == f[1]);
            assert(be16(r1)[0] == f[2] && be16(r2)[0] == f[2]);
            assert(be16(r1)[1] == f[3] && be16(r2)[1] == f[3]);
        },
        (
            MessageView::Status { pid: p1, attached_clients: a1 },
            MessageView::Status { pid: p2, attached_clients: a2 },
        ) => {
            lemma_be32(p1);
            lemma_be32(a1);
            lemma_be32(p2);
            lemma_be32(a2);
            assert(f.subrange(0, 4) =~= be32(p1));
            assert(f.subrange(0, 4) =~= be32(p2));
            assert(f.subrange(4, 8) =~= be32(a1));
            assert(f.subrange(4, 8) =~= be32(a2));
        },
        (MessageView::Error(t1), MessageView::Error(t2)) => {
            assert(decode_utf8(encode_utf8(t1)) == t1);
            assert(decode_utf8(encode_utf8(t2)) == t2);
        },
        _ => {},
    }
}

// ---------------------------------------------------------------------------
// Encoding and decoding.
fn push_be16(out: &mut Vec<u8>, value: u16)
    ensures
        final(out)@ == old(out)@ + be16(value),
{
    out.push((value / 256) as u8);
    out.push((value % 256) as u8);
    assert(final(out)@ =~= old(out)@ + be16(value));
}

fn push_be32(out: &mut Vec<u8>, value: u32)
    ensures
        final(out)@ == old(out)@ + be32(value),
{
    out.push((value / 0x1000000) as u8);
    out.push(((value / 0x10000) % 256) as u8);
    out.push(((value / 0x100) % 256) as u8);
    out.push((value % 256) as u8);
    assert(final(out)@ =~= old(out)@ + be32(value));
}

fn push_bytes(out: &mut Vec<u8>, bytes: &[u8])
    ensures
        final(out)@ == old(out)@ + bytes@,
{
    let mut i: usize = 0;
    while i < bytes.len()
        invariant
            0 <= i <= bytes.len(),
            out@ == old(out)@ + bytes@.subrange(0, i as int),
        decreases bytes.len() - i,
    {
        out.push(bytes[i]);
        i += 1;
        assert(out@ =~= old(out)@ + bytes@.subrange(0, i as int));
    }
    assert(bytes@.subrange(0, bytes.len() as int) =~= bytes@);
}

fn copy_bytes(bytes: &[u8]) -> (r: Vec<u8>)
    ensures
        r@ == bytes@,
{
    let mut out = Vec::new();
    push_bytes(&mut out, bytes);
    assert(out@ =~= bytes@);
    out
}

/// Accepts a terminal size only when both dimensions are non-zero.
pub fn valid_size(columns: u16, rows: u16) -> (r: Result<(), ProtocolError>)
    ensures
        columns != 0 && rows != 0 ==> r is Ok,
        columns == 0 || rows == 0 ==> (r matches Err(ProtocolError::Malformed(reason)) && reason
            == "terminal size must be non-zero"),
{
    if columns == 0 || rows == 0 {
        Err(ProtocolError::Malformed("terminal size must be non-zero"))
    } else {
        Ok(())
    }
}

/// Reads a terminal size from four big-endian bytes.
pub fn decode_size(payload: &[u8]) -> (r: Result<(u16, u16), ProtocolError>)
    ensures
        payload@.len() != 4 ==> (r matches Err(ProtocolError::Malformed(reason)) && reason
            == "terminal size must contain four bytes"),
        payload@.len() == 4 ==> {
            let columns = from_be16(payload@[0], payload@[1]);
            let rows = from_be16(payload@[2], payload@[3]);
            &&& columns != 0 && rows != 0 ==> r == Ok::<(u16, u16), ProtocolError>((columns, rows))
            &&& columns == 0 || rows == 0 ==> (r matches Err(ProtocolError::Malformed(reason))
                && reason == "terminal size must be non-zero")
        },
{
    if payload.len() != 4 {
        return Err(ProtocolError::Malformed("terminal size must contain four bytes"));
    }
    let columns = (payload[0] as u16) * 256 + payload[1] as u16;
    let rows = (payload[2] as u16) * 256 + payload[3] as u16;
    valid_size(columns, rows)?;
    Ok((columns, rows))
}

/// Appends the frame of `message` to `out`, or fails as `encode` does and leaves
/// `out` as it was.
pub fn write_message(out: &mut Vec<u8>, message: &Message) -> (r: Result<(), ProtocolError>)
    ensures
        !message@.fits() ==> r matches Err(ProtocolError::FrameTooLarge),
        message@.fits() && !message@.valid() ==> (r matches Err(ProtocolError::Malformed(reason))
            && reason == "terminal size must be non-zero"),
        message@.fits() && message@.valid() ==> (r is Ok && final(out)@ == old(out)@ + message@.frame()),
        r is Err ==> final(out)@ == old(out)@,
{
    let mut frame = encode(message)?;
    let ghost start = out@;
    let ghost whole = frame@;
    out.append(&mut frame);
    proof {
        assert(out@ =~= start + whole);
    }
    Ok(())
}

/// The frame of `message`: length prefix, version, kind and fields.
pub fn encode(message: &Message) -> (r: Result<Vec<u8>, ProtocolError>)
    ensures
        !message@.fits() ==> r matches Err(ProtocolError::FrameTooLarge),
        message@.fits() && !message@.valid() ==> (r matches Err(ProtocolError::Malformed(reason))
            && reason == "terminal size must be non-zero"),
        message@.fits() && message@.valid() ==> (r matches Ok(frame) && frame@ == message@.frame()),
{
    let (kind, payload): (u8, &[u8]) = match message {
        Message::Attach { .. } => (1, &[]),
        Message::Detach => (2, &[]),
        Message::Input(payload) => (3, payload.as_slice()),
        Message::Resize { .. } => (4, &[]),
        Message::Attached => (5, &[]),
        Message::Screen(payload) => (6, payload.as_slice()),
        Message::Error(text) => (7, text.as_str().as_bytes()),
        Message::StatusRequest => (8, &[]),
        Message::Status { .. } => (9, &[]),
        Message::Kill => (10, &[]),
        Message::Terminating => (11, &[]),
    };
    let fixed_len: usize = match message {
        Message::Attach { .. } => 6,
        Message::Resize { .. } => 4,
        Message::Status { .. } => 8,
        _ => 0,
    };
    proof {
        assert(kind == message@.kind());
        if fixed_len == 0 {
            assert(payload@ == message@.fields());
        } else {
            assert(payload@.len() == 0);
            assert(message@.fields().len() == fixed_len);
        }
    }
    if payload.len() > MAX_FRAME_SIZE - PREFIX_SIZE - HEADER_SIZE - fixed_len {
        return Err(ProtocolError::FrameTooLarge);
    }
    let body_len = HEADER_SIZE + payload.len() + fixed_len;
    let mut frame = Vec::new();
    push_be32(&mut frame, body_len as u32);
    frame.push(PROTOCOL_VERSION);
    frame.push(kind);
    let ghost header = frame@;
    match message {
        Message::Attach { columns, rows, profile, color } => {
            valid_size(*columns, *rows)?;
            push_be16(&mut frame, *columns);
            push_be16(&mut frame, *rows);
            frame.push(*profile);
            frame.push(*color);
        },
        Message::Resize { columns, rows } => {
            valid_size(*columns, *rows)?;
            push_be16(&mut frame, *columns);
            push_be16(&mut frame, *rows);
        },
        Message::Status { pid, attached_clients } => {
            push_be32(&mut frame, *pid);
            push_be32(&mut frame, *attached_clients);
        },
        _ => push_bytes(&mut frame, payload),
    }
    proof {
        assert(frame@ =~= header + message@.fields());
        assert(frame@ =~= message@.frame());
    }
    Ok(frame)
}

/// Decodes a frame body: version, kind and fields.
pub fn decode(body: &[u8]) -> (r: Result<Message, ProtocolError>)
    requires
        body@.len() >= HEADER_SIZE,
    ensures
        decode_outcome(body@, r),
{
    if body[0] != PROTOCOL_VERSION {
        return Err(ProtocolError::UnsupportedVersion(body[0]));
    }
    let kind = body[1];
    let payload = vstd::slice::slice_subrange(body, HEADER_SIZE, body.len());
    let ghost b = body@;
    proof {
        assert(payload@ == b.subrange(2, b.len() as int));
        assert forall|m: MessageView| m.body() == b implies m.kind() == kind && m.fields() == payload@
            by {
            lemma_body_shape(m);
        }
    }
    let r: Result<Message, ProtocolError> = if kind == 1 {
        if payload.len() != 6 {
            Err(ProtocolError::Malformed("attach must contain terminal size and profile"))
        } else {
            let size = vstd::slice::slice_subrange(payload, 0, 4);
            match decode_size(size) {
                Ok((columns, rows)) => Ok(
                    Message::Attach { columns, rows, profile: payload[4], color: payload[5] },
                ),
                Err(error) => Err(error),
            }
        }
    } else if kind == 2 {
        if payload.len() == 0 {
            Ok(Message::Detach)
        } else {
            Err(ProtocolError::Malformed("message has an unexpected payload"))
        }
    } else if kind == 3 {
        Ok(Message::Input(copy_bytes(payload)))
    } else if kind == 4 {
        match decode_size(payload) {
            Ok((columns, rows)) => Ok(Message::Resize { columns, rows }),
            Err(error) => Err(error),
        }
    } else if kind == 5 {
        if payload.len() == 0 {
            Ok(Message::Attached)
        } else {
            Err(ProtocolError::Malformed("message has an unexpected payload"))
        }
    } else if kind == 6 {
        Ok(Message::Screen(copy_bytes(payload)))
    } else if kind == 7 {
        match string_from_utf8(copy_bytes(payload)) {
            Some(text) => Ok(Message::Error(text)),
            None => Err(ProtocolError::Malformed("error message is not UTF-8")),
        }
    } else if kind == 8 {
        if payload.len() == 0 {
            Ok(Message::StatusRequest)
        } else {
            Err(ProtocolError::Malformed("message has an unexpected payload"))
        }
    } else if kind == 9 {
        if payload.len() == 8 {
            let pid = (payload[0] as u32) * 0x1000000 + (payload[1] as u32) * 0x10000
                + (payload[2] as u32) * 0x100 + payload[3] as u32;
            let attached_clients = (payload[4] as u32) * 0x1000000 + (payload[5] as u32) * 0x10000
                + (payload[6] as u32) * 0x100 + payload[7] as u32;
            Ok(Message::Status { pid, attached_clients })
        } else {
            Err(ProtocolError::Malformed("message has an unexpected payload"))
        }
    } else if kind == 10 {
        if payload.len() == 0 {
            Ok(Message::Kill)
        } else {
            Err(ProtocolError::Malformed("message has an unexpected payload"))
        }
    } else if kind == 11 {
        if payload.len() == 0 {
            Ok(Message::Terminating)
        } else {
            Err(ProtocolError::Malformed("message has an unexpected payload"))
        }
    } else {
        Err(ProtocolError::UnsupportedMessage(kind))
    };
    proof {
        lemma_decode_sound(b, r);
    }
    r
}

/// The case analysis behind `decode`: what it returns is the decode outcome.
proof fn lemma_decode_sound(b: Seq<u8>, r: Result<Message, ProtocolError>)
    requires
        b.len() >= HEADER_SIZE,
        b[0] == PROTOCOL_VERSION,
        forall|m: MessageView| m.body() == b ==> m.kind() == b[1] && m.fields() == b.subrange(
            2,
            b.len() as int,
        ),
        ({
            let kind = b[1];
            let p = b.subrange(2, b.len() as int);
            if kind == 1 {
                if p.len() != 6 {
                    r matches Err(ProtocolError::Malformed(reason)) && reason
                        == "attach must contain terminal size and profile"
                } else {
                    let c = from_be16(p[0], p[1]);
                    let w = from_be16(p[2], p[3]);
                    if c != 0 && w != 0 {
                        r matches Ok(m) && m@ == (MessageView::Attach {
                            columns: c,
                            rows: w,
                            profile: p[4],
                            color: p[5],
                        })
                    } else {
                        r matches Err(ProtocolError::Malformed(reason)) && reason
                            == "terminal size must be non-zero"
                    }
                }
            } else if kind == 4 {
                if p.len() != 4 {
                    r matches Err(ProtocolError::Malformed(reason)) && reason
                        == "terminal size must contain four bytes"
                } else {
                    let c = from_be16(p[0], p[1]);
                    let w = from_be16(p[2], p[3]);
                    if c != 0 && w != 0 {
                        r matches Ok(m) && m@ == (MessageView::Resize { columns: c, rows: w })
                    } else {
                        r matches Err(ProtocolError::Malformed(reason)) && reason
                            == "terminal size must be non-zero"
                    }
                }
            } else if kind == 3 {
                r matches Ok(m) && m@ == MessageView::Input(p)
            } else if kind == 6 {
                r matches Ok(m) && m@ == MessageView::Screen(p)
            } else if kind == 7 {
                if valid_utf8(p) {
                    r matches Ok(m) && m@ == MessageView::Error(decode_utf8(p))
                } else {
                    r matches Err(ProtocolError::Malformed(reason)) && reason
                        == "error message is not UTF-8"
                }
            } else if kind == 9 {
                if p.len() == 8 {
                    r matches Ok(m) && m@ == (MessageView::Status {
                        pid: from_be32(p.subrange(0, 4)),
                        attached_clients: from_be32(p.subrange(4, 8)),
                    })
                } else {
                    r matches Err(ProtocolError::Malformed(reason)) && reason
                        == "message has an unexpected payload"
                }
            } else if kind == 2 || kind == 5 || kind == 8 || kind == 10 || kind == 11 {
                if p.len() == 0 {
                    r matches Ok(m) && m@.kind() == kind && m@.fields() == Seq::<u8>::empty()
                } else {
                    r matches Err(ProtocolError::Malformed(reason)) && reason
                        == "message has an unexpected payload"
                }
            } else {
                r matches Err(ProtocolError::UnsupportedMessage(k)) && k == kind
            }
        }),
    ensures
        decode_outcome(b, r),
{
    let kind = b[1];
    let p = b.subrange(2, b.len() as int);
    assert(b =~= seq![b[0], b[1]] + p);
    if let Ok(m) = r {
        lemma_body_shape(m@);
        if kind == 1 {
            lemma_from_be16(p[0], p[1]);
            lemma_from_be16(p[2], p[3]);
            assert(m@.fields() =~= p);
        } else if kind == 4 {
            lemma_from_be16(p[0], p[1]);
            lemma_from_be16(p[2], p[3]);
            assert(m@.fields() =~= p);
        } else if kind == 9 {
            lemma_from_be32(p.subrange(0, 4));
            lemma_from_be32(p.subrange(4, 8));
            assert(m@.fields() =~= p);
        } else if kind == 2 || kind == 5 || kind == 8 || kind == 10 || kind == 11 {
            assert(m@.fields() =~= p);
        }
        assert(m@.body() =~= b);
        assert(m@.valid());
    } else if 1 <= kind <= 11 {
        assert forall|m: MessageView| !(m.valid() && m.body() == b) by {
            if m.valid() && m.body() == b {
                lemma_body_shape(m);
                assert(m.fields() == p);
                match m {
                    MessageView::Attach { columns, rows, .. } => {
                        lemma_be16(columns);
                        lemma_be16(rows);
                        assert(p[0] == be16(columns)[0] && p[1] == be16(columns)[1]);
                        assert(p[2] == be16(rows)[0] && p[3] == be16(rows)[1]);
                    },
                    MessageView::Resize { columns, rows } => {
                        lemma_be16(columns);
                        lemma_be16(rows);
                        assert(p[0] == be16(columns)[0] && p[1] == be16(columns)[1]);
                        assert(p[2] == be16(rows)[0] && p[3] == be16(rows)[1]);
                    },
                    MessageView::Error(text) => {
                        assert(valid_utf8(encode_utf8(text)));
                    },
                    _ => {},
                }
            }
        }
    }
}

/// `std::io::Error::from(ErrorKind::UnexpectedEof)`: the error for a stream that ends
/// inside a frame.
#[verifier::external_body]
fn unexpected_eof() -> std::io::Error {
    std::io::Error::from(std::io::ErrorKind::UnexpectedEof)
}

/// How many body bytes follow a frame's length prefix, when the prefix announces a
/// body that may be read: `None` for one too short to hold a header or too long for
/// a frame, which `read_message` refuses on the prefix alone.
pub fn body_length(prefix: &[u8]) -> (r: Option<usize>)
    requires
        prefix@.len() == PREFIX_SIZE,
    ensures
        ({
            let n = from_be32(prefix@);
            if HEADER_SIZE <= n <= MAX_FRAME_SIZE - PREFIX_SIZE {
                r == Some(n as usize)
            } else {
                r is None
            }
        }),
{
    let n = (prefix[0] as u32) * 0x1000000 + (prefix[1] as u32) * 0x10000 + (prefix[2] as u32) * 0x100
        + prefix[3] as u32;
    proof {
        assert(prefix@.subrange(0, 4) =~= prefix@);
    }
    if (n as usize) < HEADER_SIZE || n as usize > MAX_FRAME_SIZE - PREFIX_SIZE {
        None
    } else {
        Some(n as usize)
    }
}

/// Reads the first message of `stream`, the bytes a connection delivers: `None` when
/// it is empty.
pub fn read_message(stream: &[u8]) -> (r: Result<Option<Message>, ProtocolError>)
    ensures
        stream@.len() == 0 ==> r matches Ok(None),
        0 < stream@.len() < PREFIX_SIZE ==> r matches Err(ProtocolError::Io(_)),
        stream@.len() >= PREFIX_SIZE ==> {
            let n = from_be32(stream@.subrange(0, 4));
            if n < HEADER_SIZE {
                r matches Err(ProtocolError::Malformed(reason)) && reason == "frame is too short"
            } else if n > MAX_FRAME_SIZE - PREFIX_SIZE {
                r matches Err(ProtocolError::FrameTooLarge)
            } else if stream@.len() - PREFIX_SIZE < n {
                r matches Err(ProtocolError::Io(_))
            } else {
                let body = stream@.subrange(4, 4 + n);
                &&& r matches Ok(Some(message)) ==> decode_outcome(body, Ok(message))
                &&& r matches Err(error) ==> decode_outcome(body, Err(error))
                &&& r matches Ok(found) ==> found is Some
            }
        },
        // A stream that starts with the frame of a message gives that message back.
        forall|m: MessageView|
            m.valid() && m.fits() && #[trigger] m.frame().is_prefix_of(stream@) ==> (r matches Ok(
                Some(found),
            ) && found@ == m),
{
    if stream.len() == 0 {
        return Ok(None);
    }
    if stream.len() < PREFIX_SIZE {
        proof {
            assert forall|m: MessageView|
                m.valid() && m.fits() && #[trigger] m.frame().is_prefix_of(stream@) implies false by {
                assert(m.frame().len() >= 4);
            }
        }
        return Err(ProtocolError::Io(unexpected_eof()));
    }
    let body_len = (stream[0] as u32) * 0x1000000 + (stream[1] as u32) * 0x10000 + (stream[2] as u32)
        * 0x100 + stream[3] as u32;
    let ghost s = stream@;
    proof {
        assert(body_len == from_be32(s.subrange(0, 4)));
        assert forall|m: MessageView|
            m.valid() && m.fits() && #[trigger] m.frame().is_prefix_of(s) implies body_len
            == m.body().len() && s.subrange(4, 4 + body_len as int) == m.body() by {
            lemma_be32(m.body().len() as u32);
            assert(m.frame().subrange(0, 4) =~= be32(m.body().len() as u32));
            assert(s.subrange(0, 4) =~= m.frame().subrange(0, 4));
            assert forall|i: int| 0 <= i < m.body().len() implies s[4 + i] == m.body()[i] by {
                assert(m.frame()[4 + i] == m.body()[i]);
                assert(s[4 + i] == m.frame()[4 + i]);
            }
            assert(s.subrange(4, 4 + m.body().len() as int) =~= m.body());
        }
    }
    if (body_len as usize) < HEADER_SIZE {
        proof {
            assert forall|m: MessageView|
                m.valid() && m.fits() && #[trigger] m.frame().is_prefix_of(stream@) implies false by {
                lemma_body_shape(m);
            }
        }
        return Err(ProtocolError::Malformed("frame is too short"));
    }
    if body_len as usize > MAX_FRAME_SIZE - PREFIX_SIZE {
        return Err(ProtocolError::FrameTooLarge);
    }
    let body_len = body_len as usize;
    if stream.len() - PREFIX_SIZE < body_len {
        proof {
            assert forall|m: MessageView|
                m.valid() && m.fits() && #[trigger] m.frame().is_prefix_of(stream@) implies false by {
                assert(m.frame().len() == 4 + m.body().len());
            }
        }
        return Err(ProtocolError::Io(unexpected_eof()));
    }
    let body = vstd::slice::slice_subrange(stream, PREFIX_SIZE, PREFIX_SIZE + body_len);
    let decoded = decode(body);
    proof {
        assert forall|m: MessageView|
            m.valid() && m.fits() && #[trigger] m.frame().is_prefix_of(s) implies (decoded matches Ok(
            found) && found@ == m) by {
            lemma_body_shape(m);
            assert(body@ == m.body());
            if let Ok(found) = decoded {
                lemma_body_determines_message(found@, m);
            }
        }
    }
    match decoded {
        Ok(message) => Ok(Some(message)),
        Err(error) => Err(error),
    }
}

// ---------------------------------------------------------------------------
// Per-client outbound queue.
pub open spec fn total_len(frames: Seq<Vec<u8>>) -> int
    decreases frames.len(),
{
    if frames.len() == 0 {
        0
    } else {
        total_len(frames.drop_last()) + frames.last()@.len()
    }
}

/// The frames waiting to be written to one client, bounded in count and bytes.
#[derive(Debug)]
pub struct OutboundQueue {
    frames: VecDeque<Vec<u8>>,
    bytes: usize,
}

pub struct OutboundQueueView {
    pub frames: Seq<Seq<u8>>,
    pub bytes: int,
}

impl View for OutboundQueue {
    type V = OutboundQueueView;

    closed spec fn view(&self) -> OutboundQueueView {
        OutboundQueueView {
            frames: self.frames@.map_values(|frame: Vec<u8>| frame@),
            bytes: self.bytes as int,
        }
    }
}

pub open spec fn seq_total(frames: Seq<Seq<u8>>) -> int
    decreases frames.len(),
{
    if frames.len() == 0 {
        0
    } else {
        seq_total(frames.drop_last()) + frames.last().len()
    }
}

impl OutboundQueueView {
    /// The byte count is the total length of the queued frames, and both limits hold.
    pub open spec fn wf(self) -> bool {
        &&& self.bytes == seq_total(self.frames)
        &&& self.frames.len() <= MAX_QUEUE_ITEMS
        &&& self.bytes <= MAX_QUEUE_BYTES
        &&& forall|i: int| 0 <= i < self.frames.len() ==> (#[trigger] self.frames[i]).len() > 0
    }
}

/// A queue holds no bytes exactly when it holds no frames.
pub proof fn lemma_queue_empty_without_bytes(q: OutboundQueueView)
    requires
        q.wf(),
    ensures
        (q.bytes == 0) == (q.frames.len() == 0),
{
    if q.frames.len() > 0 {
        lemma_seq_total_first(q.frames);
        lemma_seq_total_nonnegative(q.frames.drop_first());
        assert(q.frames[0].len() > 0);
    }
}

proof fn lemma_seq_total_first(frames: Seq<Seq<u8>>)
    requires
        frames.len() > 0,
    ensures
        seq_total(frames) == frames[0].len() + seq_total(frames.drop_first()),
    decreases frames.len(),
{
    if frames.len() > 1 {
        lemma_seq_total_first(frames.drop_last());
        assert(frames.drop_last().drop_first() =~= frames.drop_first().drop_last());
        assert(frames.drop_first().last() == frames.last());
    } else {
        assert(frames.drop_first() =~= Seq::<Seq<u8>>::empty());
        assert(frames.drop_last() =~= Seq::<Seq<u8>>::empty());
    }
}

proof fn lemma_seq_total_nonnegative(frames: Seq<Seq<u8>>)
    ensures
        seq_total(frames) >= 0,
    decreases frames.len(),
{
    if frames.len() > 0 {
        lemma_seq_total_nonnegative(frames.drop_last());
    }
}

impl Default for OutboundQueue {
    fn default() -> (r: OutboundQueue)
        ensures
            r@.frames == Seq::<Seq<u8>>::empty(),
            r@.bytes == 0,
            r@.wf(),
    {
        let r = OutboundQueue { frames: VecDeque::new(), bytes: 0 };
        assert(r@.frames =~= Seq::<Seq<u8>>::empty());
        r
    }
}

impl OutboundQueue {
    /// Queues the frame of `message` unless either limit would be passed.
    pub fn push(&mut self, message: &Message) -> (r: Result<(), ProtocolError>)
        requires
            old(self)@.wf(),
        ensures
            final(self)@.wf(),
            r is Err ==> final(self)@ == old(self)@,
            !message@.fits() ==> r matches Err(ProtocolError::FrameTooLarge),
            message@.fits() && !message@.valid() ==> (r matches Err(ProtocolError::Malformed(reason))
                && reason == "terminal size must be non-zero"),
            message@.fits() && message@.valid() ==> {
                let frame = message@.frame();
                if old(self)@.frames.len() == MAX_QUEUE_ITEMS || old(self)@.bytes + frame.len()
                    > MAX_QUEUE_BYTES {
                    r matches Err(ProtocolError::QueueFull)
                } else {
                    r is Ok && final(self)@ == (OutboundQueueView {
                        frames: old(self)@.frames.push(frame),
                        bytes: old(self)@.bytes + frame.len(),
                    })
                }
            },
    {
        let frame = encode(message)?;
        if self.frames.len() == MAX_QUEUE_ITEMS || frame.len() > MAX_QUEUE_BYTES - self.bytes {
            return Err(ProtocolError::QueueFull);
        }
        let ghost before = self@;
        let ghost frame_view = frame@;
        self.bytes = self.bytes + frame.len();
        self.frames.push_back(frame);
        proof {
            assert(self@.frames =~= before.frames.push(frame_view));
            assert(self@.frames.drop_last() =~= before.frames);
        }
        Ok(())
    }

    /// The frame to write next, if any.
    pub fn front(&self) -> (r: Option<&Vec<u8>>)
        ensures
            self@.frames.len() == 0 ==> r is None,
            self@.frames.len() > 0 ==> (r matches Some(frame) && frame@ == self@.frames[0]),
    {
        if self.frames.len() == 0 {
            None
        } else {
            Some(&self.frames[0])
        }
    }

    /// Drops the frame that was just written.
    pub fn pop_written(&mut self)
        requires
            old(self)@.wf(),
        ensures
            final(self)@.wf(),
            old(self)@.frames.len() == 0 ==> final(self)@ == old(self)@,
            old(self)@.frames.len() > 0 ==> final(self)@ == (OutboundQueueView {
                frames: old(self)@.frames.drop_first(),
                bytes: old(self)@.bytes - old(self)@.frames[0].len(),
            }),
    {
        if self.frames.len() == 0 {
            return;
        }
        let ghost before = self@;
        proof {
            lemma_seq_total_first(before.frames);
            lemma_seq_total_nonnegative(before.frames.drop_first());
        }
        let length = self.frames[0].len();
        self.bytes = self.bytes - length;
        let _ = self.frames.pop_front();
        proof {
            assert(self@.frames =~= before.frames.drop_first());
        }
    }

    /// Writes the next frame to `out` and drops it from the queue; `false` when
    /// nothing was queued.
    pub fn write_next(&mut self, out: &mut Vec<u8>) -> (r: Result<bool, ProtocolError>)
        requires
            old(self)@.wf(),
        ensures
            final(self)@.wf(),
            old(self)@.frames.len() == 0 ==> (r == Ok::<bool, ProtocolError>(false) && final(self)@
                == old(self)@ && final(out)@ == old(out)@),
            old(self)@.frames.len() > 0 ==> (r == Ok::<bool, ProtocolError>(true) && final(self)@
                == (OutboundQueueView {
                frames: old(self)@.frames.drop_first(),
                bytes: old(self)@.bytes - old(self)@.frames[0].len(),
            }) && final(out)@ == old(out)@ + old(self)@.frames[0]),
    {
        if self.frames.len() == 0 {
            return Ok(false);
        }
        let ghost first = self@.frames[0];
        let mut index: usize = 0;
        let length = self.frames[0].len();
        let ghost start = out@;
        while index < length
            invariant
                index <= length,
                self@.frames.len() > 0,
                length == first.len(),
                first == self@.frames[0],
                old(self)@ == self@,
                out@ == start + first.take(index as int),
            decreases length - index,
        {
            out.push(self.frames[0][index]);
            index = index + 1;
            proof {
                assert(first.take(index as int) =~= first.take(index - 1).push(first[index - 1]));
            }
        }
        proof {
            assert(first.take(length as int) =~= first);
        }
        self.pop_written();
        Ok(true)
    }

    pub fn len(&self) -> (r: usize)
        ensures
            r == self@.frames.len(),
    {
        self.frames.len()
    }

    pub fn is_empty(&self) -> (r: bool)
        ensures
            r == (self@.frames.len() == 0),
    {
        self.frames.len() == 0
    }

    pub fn bytes(&self) -> (r: usize)
        ensures
            r == self@.bytes,
    {
        self.bytes
    }
}

/// A call on a queue as the contracts of `push` and `write_next` state its effect:
/// a frame queued at the back, the front frame written, or nothing changed.
pub enum QueueCall {
    Pushed(Seq<u8>),
    Wrote,
    Unchanged,
}

pub open spec fn after_call(q: OutboundQueueView, call: QueueCall) -> OutboundQueueView {
    match call {
        QueueCall::Pushed(frame) => OutboundQueueView { frames: q.frames.push(frame), bytes: q.bytes + frame.len() },
        QueueCall::Wrote => OutboundQueueView { frames: q.frames.drop_first(), bytes: q.bytes - q.frames[0].len() },
        QueueCall::Unchanged => q,
    }
}

/// The queue after a run of calls.
pub open spec fn after_calls(q: OutboundQueueView, calls: Seq<QueueCall>) -> OutboundQueueView
    decreases calls.len(),
{
    if calls.len() == 0 {
        q
    } else {
        after_call(after_calls(q, calls.drop_last()), calls.last())
    }
}

/// How many of the calls queued a frame, less how many wrote one.
pub open spec fn pushes_less_writes(calls: Seq<QueueCall>) -> int
    decreases calls.len(),
{
    if calls.len() == 0 {
        0
    } else {
        pushes_less_writes(calls.drop_last()) + match calls.last() {
            QueueCall::Pushed(_) => 1int,
            QueueCall::Wrote => -1int,
            QueueCall::Unchanged => 0int,
        }
    }
}

/// Starting from an empty queue, the number of queued frames is the number of
/// frames pushed less the number written, when every write found a frame to write.
pub proof fn lemma_queue_count(q: OutboundQueueView, calls: Seq<QueueCall>)
    requires
        q.frames.len() == 0,
        forall|i: int| 0 <= i < calls.len() && (#[trigger] calls[i]) is Wrote
            ==> after_calls(q, calls.take(i)).frames.len() > 0,
    ensures
        after_calls(q, calls).frames.len() == pushes_less_writes(calls),
    decreases calls.len(),
{
    if calls.len() > 0 {
        let rest = calls.drop_last();
        assert forall|i: int| 0 <= i < rest.len() && (#[trigger] rest[i]) is Wrote
            implies after_calls(q, rest.take(i)).frames.len() > 0 by {
            assert(rest.take(i) =~= calls.take(i));
            assert(rest[i] == calls[i]);
        }
        lemma_queue_count(q, rest);
        let last = calls.len() - 1;
        assert(calls.take(last) =~= rest);
        assert(calls[last] == calls.last());
    }
}

} // verus!
