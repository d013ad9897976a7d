//! The connection layer: the SASL line-oriented handshake over a byte
//! transport, then binary message framing in both directions.
use vstd::prelude::*;

use crate::Endianness;
use crate::de::{decode, check_sig_types, type_end_x, DecodeError};
use crate::msg::{
    MessageHeader, MessageHeaderField, MessageType, msg_bytes, msg_fits, body_val, field_val,
    lemma_fields_vals_index,
    field_val2, field_ok, fields_vals, sig_yv, encode_message, PROTOCOL_VERSION,
    TYPE_METHOD_CALL, TYPE_METHOD_RETURN, TYPE_ERROR, TYPE_SIGNAL,
};
use crate::ser::{enc, SerializeError, fits, pad_len};
use crate::val::{Val, Variant, valid, valid_path, valid_sig_string, sig_of, view_list};
use crate::wire::{copy_range, read_u32};

verus! {

/// An error reported by the byte transport under a connection.
#[derive(Clone, Copy, Debug, PartialEq, Eq, Structural)]
pub enum TransportError {
    /// The stream is closed.
    Closed,
    /// Reading or writing failed.
    Io,
}

/// The duplex byte stream a connection runs on. The process edge (sockets)
/// implements this outside the library; tests drive it with scripted
/// byte streams.
pub trait Transport {
    /// Write all of `bytes` to the stream, blocking until done.
    fn write_all(&mut self, bytes: &Vec<u8>) -> (r: Result<(), TransportError>);

    /// Read exactly `n` bytes from the stream, blocking until they arrive.
    fn read_exact(&mut self, n: usize) -> (r: Result<Vec<u8>, TransportError>)
        ensures
            r is Ok ==> r->Ok_0@.len() == n as nat,
    ;
}

/// How the client authenticates in the SASL handshake.
pub enum SaslAuthType {
    /// The identity-based mechanism: the caller's identity (for example a
    /// numeric user id in decimal ASCII) is sent hex-encoded.
    External { identity: Vec<u8> },
    /// The anonymous mechanism.
    Anonymous,
}

/// An error from establishing a connection.
#[derive(Debug)]
pub enum ConnectError {
    /// The transport failed during the handshake.
    Transport(TransportError),
    /// The server answered something other than `OK <guid>`; the line is
    /// kept for the caller. The handshake is never retried.
    Rejected(Vec<u8>),
    /// The server's reply line broke the line protocol (a line feed not
    /// preceded by a carriage return).
    MalformedLine(Vec<u8>),
    /// The server's reply line never ended within the accepted length.
    LineTooLong,
}

/// An error from sending a message.
#[derive(Debug)]
pub enum SendError {
    /// The connection is closed.
    ConnectionClosed,
    /// The transport failed.
    Transport(TransportError),
    /// The message could not be framed.
    Serialize(SerializeError),
}

/// An error from receiving a message.
#[derive(Debug)]
pub enum RecvError {
    /// The connection is closed.
    ConnectionClosed,
    /// The transport failed.
    Transport(TransportError),
    /// The message bytes are malformed.
    Decode(DecodeError),
    /// The endianness marker byte is unknown.
    BadEndianness(u8),
    /// The protocol version byte is not the fixed value.
    BadProtocolVersion(u8),
    /// The message type code is unknown.
    UnknownMessageType(u8),
    /// A header field required by the message type is missing.
    MissingRequiredField,
    /// The body length or signature do not describe the body exactly.
    BodyLengthMismatch,
    /// The message is larger than this build can hold.
    TooLarge,
    /// One receive call buffered its limit of unmatched messages and gave
    /// up waiting.
    TooManyUnmatched,
}

/// Connection phases: the line-oriented handshake is over once a
/// connection exists; it is established until closed.
#[derive(Clone, Copy, Debug, PartialEq, Eq, Structural)]
pub enum ConnState {
    Established,
    Closed,
}

/// The hexadecimal digit (lowercase) of a value below sixteen.
pub open spec fn hex_digit(n: u8) -> u8 {
    if n < 10 {
        (48 + n) as u8
    } else {
        (87 + n) as u8
    }
}

/// The lowercase hex encoding of a byte string, two digits per byte.
pub open spec fn hex_of(s: Seq<u8>) -> Seq<u8> {
    Seq::new(
        s.len() * 2,
        |i: int|
            if i % 2 == 0 {
                hex_digit(s[i / 2] / 16)
            } else {
                hex_digit(s[i / 2] % 16)
            },
    )
}

/// The lowercase hex encoding of a byte string.
pub fn hex_encode(s: &Vec<u8>) -> (r: Vec<u8>)
    ensures
        r@ == hex_of(s@),
{
    let mut r: Vec<u8> = Vec::new();
    let mut i: usize = 0;
    while i < s.len()
        invariant
            i <= s@.len(),
            r@ == hex_of(s@.take(i as int)),
        decreases s@.len() - i,
    {
        let b = s[i];
        let hi = b / 16;
        let lo = b % 16;
        r.push(
            if hi < 10 {
                48 + hi
            } else {
                87 + hi
            },
        );
        r.push(
            if lo < 10 {
                48 + lo
            } else {
                87 + lo
            },
        );
        i = i + 1;
        assert(r@ =~= hex_of(s@.take(i as int)));
    }
    assert(s@.take(s@.len() as int) =~= s@);
    r
}

/// The first client line of the handshake: a NUL byte, then
/// `AUTH <mechanism> [<hex identity>]` ended by CR LF.
pub open spec fn auth_line(auth: SaslAuthType) -> Seq<u8> {
    match auth {
        SaslAuthType::External { identity } => seq![
            0u8, 65, 85, 84, 72, 32, 69, 88, 84, 69, 82, 78, 65, 76, 32,
        ] + hex_of(identity@) + seq![13u8, 10],
        SaslAuthType::Anonymous => seq![
            0u8, 65, 85, 84, 72, 32, 65, 78, 79, 78, 89, 77, 79, 85, 83, 13, 10,
        ],
    }
}

/// Build the first client line of the handshake.
pub fn build_auth_line(auth: &SaslAuthType) -> (r: Vec<u8>)
    ensures
        r@ == auth_line(*auth),
{
    let mut r: Vec<u8> = Vec::new();
    r.push(0);
    r.push(65);
    r.push(85);
    r.push(84);
    r.push(72);
    r.push(32);
    match auth {
        SaslAuthType::External { identity } => {
            r.push(69);
            r.push(88);
            r.push(84);
            r.push(69);
            r.push(82);
            r.push(78);
            r.push(65);
            r.push(76);
            r.push(32);
            let h = hex_encode(identity);
            r.extend_from_slice(h.as_slice());
        },
        SaslAuthType::Anonymous => {
            r.push(65);
            r.push(78);
            r.push(79);
            r.push(78);
            r.push(89);
            r.push(77);
            r.push(79);
            r.push(85);
            r.push(83);
        },
    }
    r.push(13);
    r.push(10);
    assert(r@ =~= auth_line(*auth));
    r
}

/// Whether a server handshake line accepts the authentication: it starts
/// with `OK` and a space.
pub open spec fn is_ok_line(line: Seq<u8>) -> bool {
    line.len() >= 3 && line[0] == 79 && line[1] == 75 && line[2] == 32
}

/// Whether a server handshake line accepts the authentication.
pub fn check_ok_line(line: &Vec<u8>) -> (r: bool)
    ensures
        r == is_ok_line(line@),
{
    line.len() >= 3 && line[0] == 79 && line[1] == 75 && line[2] == 32
}

/// The `BEGIN` line that switches the stream to binary framing.
pub open spec fn begin_line() -> Seq<u8> {
    seq![66u8, 69, 71, 73, 78, 13, 10]
}

/// Build the `BEGIN` line.
pub fn build_begin_line() -> (r: Vec<u8>)
    ensures
        r@ == begin_line(),
{
    let mut r: Vec<u8> = Vec::new();
    r.push(66);
    r.push(69);
    r.push(71);
    r.push(73);
    r.push(78);
    r.push(13);
    r.push(10);
    assert(r@ =~= begin_line());
    r
}

/// The body's own signature obeys the signature grammar and its one-byte
/// wire length.
pub open spec fn body_sig_ok(bv: Option<Val>) -> bool {
    match bv {
        Option::None => true,
        Option::Some(b) => valid_sig_string(sig_of(b)),
    }
}

/// The wire code of a message type.
pub open spec fn type_code_of(t: MessageType) -> u8 {
    match t {
        MessageType::MethodCall { .. } => 1,
        MessageType::MethodReturn { .. } => 2,
        MessageType::Error { .. } => 3,
        MessageType::Signal { .. } => 4,
    }
}

/// The header field values that a message type itself requires.
pub open spec fn tf_vals(t: MessageType) -> Seq<Val> {
    match t {
        MessageType::MethodCall { path, member } => seq![
            field_val2(1, Val::Path(path@)),
            field_val2(3, Val::Str(member@)),
        ],
        MessageType::MethodReturn { reply_serial } => seq![
            field_val2(5, Val::U32(reply_serial)),
        ],
        MessageType::Error { name, reply_serial } => seq![
            field_val2(4, Val::Str(name@)),
            field_val2(5, Val::U32(reply_serial)),
        ],
        MessageType::Signal { path, interface, member } => seq![
            field_val2(1, Val::Path(path@)),
            field_val2(2, Val::Str(interface@)),
            field_val2(3, Val::Str(member@)),
        ],
    }
}

/// The properties a message type carries are well formed for the wire.
pub open spec fn typ_ok(t: MessageType) -> bool {
    match t {
        MessageType::MethodCall { path, member } => valid_path(path@) && vstd::utf8::encode_utf8(
            member@,
        ).len() < 0x1_0000_0000,
        MessageType::MethodReturn { .. } => true,
        MessageType::Error { name, .. } => vstd::utf8::encode_utf8(name@).len() < 0x1_0000_0000,
        MessageType::Signal { path, interface, member } => valid_path(path@)
            && vstd::utf8::encode_utf8(interface@).len() < 0x1_0000_0000
            && vstd::utf8::encode_utf8(member@).len() < 0x1_0000_0000,
    }
}

/// All header field values of one outgoing message: the type's required
/// fields, a signature field exactly when a body is given, then the
/// caller's own fields.
pub open spec fn send_fvals(h: MessageHeader, bv: Option<Val>) -> Seq<Val> {
    tf_vals(h.typ) + (match bv {
        Option::None => Seq::<Val>::empty(),
        Option::Some(b) => seq![field_val2(8, Val::Sig(sig_of(b)))],
    }) + fields_vals(h.fields@)
}

/// An owned copy of one header field: the same field on the wire.
fn dup_field(f: &MessageHeaderField) -> (r: MessageHeaderField)
    ensures
        field_val(r) == field_val(*f),
        field_ok(r) == field_ok(*f),
{
    match f {
        MessageHeaderField::Path(p) => MessageHeaderField::Path(copy_bytes(p)),
        MessageHeaderField::Interface(s) => MessageHeaderField::Interface(s.clone()),
        MessageHeaderField::Member(s) => MessageHeaderField::Member(s.clone()),
        MessageHeaderField::ErrorName(s) => MessageHeaderField::ErrorName(s.clone()),
        MessageHeaderField::ReplySerial(x) => MessageHeaderField::ReplySerial(*x),
        MessageHeaderField::Destination(s) => MessageHeaderField::Destination(s.clone()),
        MessageHeaderField::Sender(s) => MessageHeaderField::Sender(s.clone()),
        MessageHeaderField::Signature(g) => MessageHeaderField::Signature(copy_bytes(g)),
        MessageHeaderField::UnixFds(x) => MessageHeaderField::UnixFds(*x),
    }
}

/// An owned copy of a byte vector with the same contents.
fn copy_bytes(v: &Vec<u8>) -> (r: Vec<u8>)
    ensures
        r@ == v@,
{
    let r = copy_range(v, 0, v.len());
    assert(r@ =~= v@);
    r
}

/// One decoded header-field struct as a header field; an unknown field
/// code yields nothing and the field is skipped, as the wire format asks.
fn parse_field(v: &Variant) -> Option<MessageHeaderField> {
    match v {
        Variant::Tuple { elements } => {
            if elements.len() != 2 {
                return None;
            }
            let code: u8 = match &elements[0] {
                Variant::Byte(c) => *c,
                _ => {
                    return None;
                },
            };
            let inner: &Variant = match &elements[1] {
                Variant::VariantValue(b) => &**b,
                _ => {
                    return None;
                },
            };
            match inner {
                Variant::ObjectPath(p) => {
                    if code == 1 {
                        Some(MessageHeaderField::Path(copy_bytes(p)))
                    } else {
                        None
                    }
                },
                Variant::Str(s) => {
                    if code == 2 {
                        Some(MessageHeaderField::Interface(s.clone()))
                    } else if code == 3 {
                        Some(MessageHeaderField::Member(s.clone()))
                    } else if code == 4 {
                        Some(MessageHeaderField::ErrorName(s.clone()))
                    } else if code == 6 {
                        Some(MessageHeaderField::Destination(s.clone()))
                    } else if code == 7 {
                        Some(MessageHeaderField::Sender(s.clone()))
                    } else {
                        None
                    }
                },
                Variant::U32(x) => {
                    if code == 5 {
                        Some(MessageHeaderField::ReplySerial(*x))
                    } else if code == 9 {
                        Some(MessageHeaderField::UnixFds(*x))
                    } else {
                        None
                    }
                },
                Variant::Signature(g) => {
                    if code == 8 {
                        Some(MessageHeaderField::Signature(copy_bytes(g)))
                    } else {
                        None
                    }
                },
                _ => None,
            }
        },
        _ => None,
    }
}

/// The first path field, copied out.
fn find_path(fields: &Vec<MessageHeaderField>) -> Option<Vec<u8>> {
    let mut i: usize = 0;
    while i < fields.len()
        decreases fields@.len() - i,
    {
        match &fields[i] {
            MessageHeaderField::Path(p) => {
                return Some(copy_bytes(p));
            },
            _ => {},
        }
        i = i + 1;
    }
    None
}

/// The first text field with the given wire code, copied out.
fn find_string(fields: &Vec<MessageHeaderField>, code: u8) -> Option<String> {
    let mut i: usize = 0;
    while i < fields.len()
        decreases fields@.len() - i,
    {
        let hit: Option<&String> = match &fields[i] {
            MessageHeaderField::Interface(s) => if code == 2 {
                Some(s)
            } else {
                None
            },
            MessageHeaderField::Member(s) => if code == 3 {
                Some(s)
            } else {
                None
            },
            MessageHeaderField::ErrorName(s) => if code == 4 {
                Some(s)
            } else {
                None
            },
            MessageHeaderField::Destination(s) => if code == 6 {
                Some(s)
            } else {
                None
            },
            MessageHeaderField::Sender(s) => if code == 7 {
                Some(s)
            } else {
                None
            },
            _ => None,
        };
        match hit {
            Some(s) => {
                return Some(s.clone());
            },
            None => {},
        }
        i = i + 1;
    }
    None
}

/// The first reply-serial field.
fn find_reply_serial(fields: &Vec<MessageHeaderField>) -> Option<u32> {
    let mut i: usize = 0;
    while i < fields.len()
        decreases fields@.len() - i,
    {
        match &fields[i] {
            MessageHeaderField::ReplySerial(x) => {
                return Some(*x);
            },
            _ => {},
        }
        i = i + 1;
    }
    None
}

/// The contents of the first signature field of a field list, if any.
pub open spec fn first_sig(fs: Seq<MessageHeaderField>) -> Option<Seq<u8>>
    decreases fs,
{
    if fs.len() == 0 {
        Option::None
    } else {
        match fs[0] {
            MessageHeaderField::Signature(g) => Option::Some(g@),
            _ => first_sig(fs.subrange(1, fs.len() as int)),
        }
    }
}

/// The first signature field, copied out.
fn find_signature(fields: &Vec<MessageHeaderField>) -> (r: Option<Vec<u8>>)
    ensures
        r is Some <==> first_sig(fields@) is Some,
        r is Some ==> r->Some_0@ == first_sig(fields@)->Some_0,
{
    proof {
        assert(fields@.subrange(0, fields@.len() as int) =~= fields@);
    }
    let mut i: usize = 0;
    while i < fields.len()
        invariant
            i <= fields@.len(),
            first_sig(fields@) == first_sig(fields@.subrange(i as int, fields@.len() as int)),
        decreases fields@.len() - i,
    {
        let ghost rest = fields@.subrange(i as int, fields@.len() as int);
        proof {
            assert(rest[0] == fields@[i as int]);
            assert(rest.subrange(1, rest.len() as int) =~= fields@.subrange(
                i as int + 1,
                fields@.len() as int,
            ));
        }
        match &fields[i] {
            MessageHeaderField::Signature(g) => {
                return Some(copy_bytes(g));
            },
            _ => {},
        }
        i = i + 1;
    }
    proof {
        assert(fields@.subrange(fields@.len() as int, fields@.len() as int) =~= Seq::<
            MessageHeaderField,
        >::empty());
    }
    None
}

/// Longest accepted server handshake line, in bytes.
pub const MAX_LINE: usize = 4096;

/// A session with a message bus over a transport `T`: it is created by
/// the SASL handshake and then frames messages in both directions.
pub struct Connection<T> {
    /// The byte stream under the session.
    pub transport: T,
    /// Whether the session still accepts sends and receives.
    pub state: ConnState,
    /// Byte order used for outgoing messages.
    pub endianness: Endianness,
}

/// Read one CR-LF-terminated line (terminator removed), one byte at a
/// time, refusing lines longer than `MAX_LINE`.
fn read_line<T: Transport>(t: &mut T) -> (r: Result<Vec<u8>, ConnectError>)
    ensures
        r is Ok ==> r->Ok_0@.len() <= MAX_LINE,
        !(r matches Err(ConnectError::Rejected(_))),
{
    let mut line: Vec<u8> = Vec::new();
    let mut n: usize = 0;
    while n < MAX_LINE
        invariant
            line@.len() <= n <= MAX_LINE,
        decreases MAX_LINE - n,
    {
        let b = match t.read_exact(1) {
            Ok(v) => v[0],
            Err(er) => {
                return Err(ConnectError::Transport(er));
            },
        };
        if b == 10 {
            if line.len() >= 1 && line[line.len() - 1] == 13 {
                let _ = line.pop();
                return Ok(line);
            }
            return Err(ConnectError::MalformedLine(line));
        }
        line.push(b);
        n = n + 1;
    }
    Err(ConnectError::LineTooLong)
}

impl<T: Transport> Connection<T> {
    /// Open a session: send the authentication line, require `OK` from
    /// the server, send `BEGIN`, and switch irreversibly to binary
    /// framing. Any other server reply fails the handshake without retry.
    pub fn new(transport: T, auth: SaslAuthType, endianness: Endianness) -> (r: Result<
        Connection<T>,
        ConnectError,
    >)
        ensures
            r is Ok ==> r->Ok_0.state is Established && r->Ok_0.endianness == endianness,
            r matches Err(ConnectError::Rejected(l)) ==> !is_ok_line(l@),
    {
        let mut transport = transport;
        let hello = build_auth_line(&auth);
        match transport.write_all(&hello) {
            Ok(()) => {},
            Err(er) => {
                return Err(ConnectError::Transport(er));
            },
        }
        let line = match read_line(&mut transport) {
            Ok(l) => l,
            Err(er) => {
                return Err(er);
            },
        };
        if !check_ok_line(&line) {
            return Err(ConnectError::Rejected(line));
        }
        let begin = build_begin_line();
        match transport.write_all(&begin) {
            Ok(()) => {},
            Err(er) => {
                return Err(ConnectError::Transport(er));
            },
        }
        Ok(Connection { transport, state: ConnState::Established, endianness })
    }

    /// Marshal one message and write it to the transport: primary header,
    /// synthesized required header fields, the caller's extra fields, a
    /// signature field exactly when a body is given, then the body.
    /// The serial must already be assigned by the caller.
    pub fn send(&mut self, header: &MessageHeader, body: Option<&Variant>) -> (r: Result<
        (),
        SendError,
    >)
        requires
            typ_ok(header.typ),
            forall|i: int|
                0 <= i < header.fields@.len() ==> field_ok(#[trigger] header.fields@[i]),
            body matches Some(b) ==> valid(b@),
            msg_bytes(
                old(self).endianness,
                type_code_of(header.typ),
                header.flags,
                header.serial,
                send_fvals(*header, body_val(body)),
                body_val(body),
            ).len() <= usize::MAX,
        ensures
            final(self).state == old(self).state,
            final(self).endianness == old(self).endianness,
            old(self).state is Closed <==> r matches Err(SendError::ConnectionClosed),
            old(self).state is Established ==> (r matches Err(SendError::Serialize(_))
                <==> !(body_sig_ok(body_val(body)) && msg_fits(
                old(self).endianness,
                send_fvals(*header, body_val(body)),
                body_val(body),
            ))),
            old(self).state is Established && body_sig_ok(body_val(body)) && msg_fits(
                old(self).endianness,
                send_fvals(*header, body_val(body)),
                body_val(body),
            ) ==> (r is Ok || r matches Err(SendError::Transport(_))),
    {
        if !matches!(self.state, ConnState::Established) {
            return Err(SendError::ConnectionClosed);
        }
        let mut fields: Vec<MessageHeaderField> = Vec::new();
        let tc: u8;
        match &header.typ {
            MessageType::MethodCall { path, member } => {
                tc = TYPE_METHOD_CALL;
                let pc = copy_bytes(path);
                fields.push(MessageHeaderField::Path(pc));
                fields.push(MessageHeaderField::Member(member.clone()));
                proof {
                    lemma_fields_vals_index(fields@);
                    assert(field_val(fields@[0]) == field_val2(1, Val::Path(path@)));
                    assert(field_val(fields@[1]) == field_val2(3, Val::Str(member@)));
                    assert(fields_vals(fields@) =~= tf_vals(header.typ));
                }
            },
            MessageType::MethodReturn { reply_serial } => {
                tc = TYPE_METHOD_RETURN;
                fields.push(MessageHeaderField::ReplySerial(*reply_serial));
                proof {
                    lemma_fields_vals_index(fields@);
                    assert(field_val(fields@[0]) == field_val2(5, Val::U32(*reply_serial)));
                    assert(fields_vals(fields@) =~= tf_vals(header.typ));
                }
            },
            MessageType::Error { name, reply_serial } => {
                tc = TYPE_ERROR;
                fields.push(MessageHeaderField::ErrorName(name.clone()));
                fields.push(MessageHeaderField::ReplySerial(*reply_serial));
                proof {
                    lemma_fields_vals_index(fields@);
                    assert(field_val(fields@[0]) == field_val2(4, Val::Str(name@)));
                    assert(field_val(fields@[1]) == field_val2(5, Val::U32(*reply_serial)));
                    assert(fields_vals(fields@) =~= tf_vals(header.typ));
                }
            },
            MessageType::Signal { path, interface, member } => {
                tc = TYPE_SIGNAL;
                let pc = copy_bytes(path);
                fields.push(MessageHeaderField::Path(pc));
                fields.push(MessageHeaderField::Interface(interface.clone()));
                fields.push(MessageHeaderField::Member(member.clone()));
                proof {
                    lemma_fields_vals_index(fields@);
                    assert(field_val(fields@[0]) == field_val2(1, Val::Path(path@)));
                    assert(field_val(fields@[1]) == field_val2(2, Val::Str(interface@)));
                    assert(field_val(fields@[2]) == field_val2(3, Val::Str(member@)));
                    assert(fields_vals(fields@) =~= tf_vals(header.typ));
                }
            },
        }
        match body {
            Some(b) => {
                let g = b.signature();
                if g.len() > 255 {
                    return Err(SendError::Serialize(SerializeError::ExceedsNumericLimits));
                }
                if !check_sig_types(&g) {
                    return Err(SendError::Serialize(SerializeError::ExceedsNumericLimits));
                }
                let ghost pre = fields@;
                fields.push(MessageHeaderField::Signature(g));
                proof {
                    lemma_fields_vals_index(fields@);
                    lemma_fields_vals_index(pre);
                    assert(fields_vals(fields@) =~= fields_vals(pre) + seq![
                        field_val2(8, Val::Sig(sig_of(b@))),
                    ]);
                }
            },
            None => {},
        }
        let ghost mid = fields_vals(fields@);
        let ghost hvals = fields_vals(header.fields@);
        proof {
            assert(forall|j: int|
                0 <= j < fields@.len() ==> field_ok(#[trigger] fields@[j]));
        }
        let mut i: usize = 0;
        while i < header.fields.len()
            invariant
                i <= header.fields@.len(),
                fields_vals(fields@) == mid + hvals.take(i as int),
                hvals == fields_vals(header.fields@),
                forall|j: int| 0 <= j < fields@.len() ==> field_ok(#[trigger] fields@[j]),
                forall|j: int|
                    0 <= j < header.fields@.len() ==> field_ok(
                        #[trigger] header.fields@[j],
                    ),
            decreases header.fields@.len() - i,
        {
            let f = dup_field(&header.fields[i]);
            let ghost pre = fields@;
            fields.push(f);
            proof {
                lemma_fields_vals_index(fields@);
                lemma_fields_vals_index(pre);
                lemma_fields_vals_index(header.fields@);
                assert(hvals[i as int] == field_val(header.fields@[i as int]));
                assert(fields_vals(fields@) =~= mid + hvals.take(i as int + 1));
                assert(forall|j: int|
                    0 <= j < pre.len() ==> field_ok(#[trigger] fields@[j]));
            }
            i = i + 1;
        }
        proof {
            assert(hvals.take(hvals.len() as int) =~= hvals);
            assert(fields_vals(fields@) =~= send_fvals(*header, body_val(body)));
        }
        let bytes = match encode_message(
            self.endianness,
            tc,
            header.flags,
            header.serial,
            &fields,
            body,
        ) {
            Ok(b) => b,
            Err(er) => {
                return Err(SendError::Serialize(er));
            },
        };
        match self.transport.write_all(&bytes) {
            Ok(()) => Ok(()),
            Err(er) => Err(SendError::Transport(er)),
        }
    }

    /// Read one message from the transport: the fixed 16-byte prefix
    /// first (endianness, type, flags, version, body length, serial,
    /// field-array length), then the header fields, padding, and exactly
    /// the declared body, decoded with the signature header field.
    pub fn recv(&mut self) -> (r: Result<(MessageHeader, Option<Variant>), RecvError>)
        ensures
            final(self).state == old(self).state,
            final(self).endianness == old(self).endianness,
            old(self).state is Closed <==> r matches Err(RecvError::ConnectionClosed),
            r matches Ok(m) ==> ((m.1 is Some) <==> (first_sig(m.0.fields@) matches Some(g)
                && g.len() > 0)),
    {
        if !(matches!(self.state, ConnState::Established)) {
            return Err(RecvError::ConnectionClosed);
        }
        let head = match self.transport.read_exact(16) {
            Ok(v) => v,
            Err(er) => {
                return Err(RecvError::Transport(er));
            },
        };
        let e = if head[0] == 108 {
            Endianness::Little
        } else if head[0] == 66 {
            Endianness::Big
        } else {
            return Err(RecvError::BadEndianness(head[0]));
        };
        let tc = head[1];
        let fl = head[2];
        if head[3] != PROTOCOL_VERSION {
            return Err(RecvError::BadProtocolVersion(head[3]));
        }
        let body_len = read_u32(&head, e, 4) as usize;
        let serial = read_u32(&head, e, 8);
        let fields_len = read_u32(&head, e, 12) as usize;
        if fields_len > usize::MAX - 16 {
            return Err(RecvError::TooLarge);
        }
        let after_fields = 16 + fields_len;
        let pad8 = (8 - (after_fields % 8)) % 8;
        if fields_len > usize::MAX - pad8 {
            return Err(RecvError::TooLarge);
        }
        if fields_len + pad8 > usize::MAX - body_len {
            return Err(RecvError::TooLarge);
        }
        let rest_len = fields_len + pad8 + body_len;
        if rest_len > usize::MAX - 16 {
            return Err(RecvError::TooLarge);
        }
        let rest = match self.transport.read_exact(rest_len) {
            Ok(v) => v,
            Err(er) => {
                return Err(RecvError::Transport(er));
            },
        };
        let mut data = head;
        data.extend_from_slice(rest.as_slice());
        let mut asig: Vec<u8> = Vec::new();
        asig.push(97);
        asig.push(40);
        asig.push(121);
        asig.push(118);
        asig.push(41);
        let (fv, fend, _fsi) = match decode(&data, e, 12, &asig, 0) {
            Ok(t) => t,
            Err(er) => {
                return Err(RecvError::Decode(er));
            },
        };
        if fend != after_fields {
            return Err(RecvError::BodyLengthMismatch);
        }
        let elements = match fv {
            Variant::Array { elements, .. } => elements,
            _ => {
                return Err(RecvError::Decode(DecodeError::InvalidSignature));
            },
        };
        let mut fields: Vec<MessageHeaderField> = Vec::new();
        let mut i: usize = 0;
        while i < elements.len()
            invariant
                self.state == old(self).state,
                self.endianness == old(self).endianness,
            decreases elements@.len() - i,
        {
            match parse_field(&elements[i]) {
                Some(f) => fields.push(f),
                None => {},
            }
            i = i + 1;
        }
        let typ = if tc == TYPE_METHOD_CALL {
            match (find_path(&fields), find_string(&fields, 3)) {
                (Some(path), Some(member)) => MessageType::MethodCall { path, member },
                _ => {
                    return Err(RecvError::MissingRequiredField);
                },
            }
        } else if tc == TYPE_METHOD_RETURN {
            match find_reply_serial(&fields) {
                Some(reply_serial) => MessageType::MethodReturn { reply_serial },
                None => {
                    return Err(RecvError::MissingRequiredField);
                },
            }
        } else if tc == TYPE_ERROR {
            match (find_string(&fields, 4), find_reply_serial(&fields)) {
                (Some(name), Some(reply_serial)) => MessageType::Error { name, reply_serial },
                _ => {
                    return Err(RecvError::MissingRequiredField);
                },
            }
        } else if tc == TYPE_SIGNAL {
            match (find_path(&fields), find_string(&fields, 2), find_string(&fields, 3)) {
                (Some(path), Some(interface), Some(member)) => MessageType::Signal {
                    path,
                    interface,
                    member,
                },
                _ => {
                    return Err(RecvError::MissingRequiredField);
                },
            }
        } else {
            return Err(RecvError::UnknownMessageType(tc));
        };
        let body: Option<Variant> = match find_signature(&fields) {
            None => {
                if body_len != 0 {
                    return Err(RecvError::BodyLengthMismatch);
                }
                None
            },
            Some(g) if g.len() == 0 => {
                if body_len != 0 {
                    return Err(RecvError::BodyLengthMismatch);
                }
                None
            },
            Some(g) => {
                let body_start = after_fields + pad8;
                let mut pos = body_start;
                let mut si: usize = 0;
                let mut vals: Vec<Variant> = Vec::new();
                while si < g.len()
                    invariant
                        si <= g@.len(),
                        old(self).state is Established,
                        self.state == old(self).state,
                        self.endianness == old(self).endianness,
                    decreases g@.len() - si,
                {
                    let (v, p2, s2) = match decode(&data, e, pos, &g, si) {
                        Ok(t) => t,
                        Err(er) => {
                            return Err(RecvError::Decode(er));
                        },
                    };
                    if s2 <= si || s2 > g.len() {
                        return Err(RecvError::Decode(DecodeError::InvalidSignature));
                    }
                    pos = p2;
                    si = s2;
                    vals.push(v);
                }
                if pos != data.len() {
                    return Err(RecvError::BodyLengthMismatch);
                }
                if vals.len() == 1 {
                    Some(vals.remove(0))
                } else {
                    Some(Variant::Tuple { elements: vals })
                }
            },
        };
        let header = MessageHeader {
            typ,
            flags: fl,
            body_len: body_len as u32,
            serial,
            fields,
        };
        Ok((header, body))
    }

    /// Close the session; every later send or receive fails.
    pub fn close(&mut self)
        ensures
            final(self).state is Closed,
            final(self).transport == old(self).transport,
            final(self).endianness == old(self).endianness,
    {
        self.state = ConnState::Closed;
    }
}

} // verus!
