//! Session tests: the SASL handshake, message framing over a scripted
//! transport, the name request, and out-of-order delivery.
use dbus_pure::Endianness;
use dbus_pure::client::{classify_reply, Client, MessageMatcher, MethodCallError};
use dbus_pure::conn::{
    ConnState, Connection, SaslAuthType, Transport, TransportError, build_auth_line,
    build_begin_line, check_ok_line, hex_encode,
};
use dbus_pure::msg::{
    encode_message, MessageHeader, MessageHeaderField, MessageType, FLAG_NONE,
    TYPE_METHOD_RETURN, TYPE_SIGNAL,
};
use dbus_pure::val::Variant;

/// A transport fed from a script: reads consume the script, writes are
/// collected for inspection.
struct MockTransport {
    script: Vec<u8>,
    read_pos: usize,
    written: Vec<u8>,
}

impl MockTransport {
    fn new(script: Vec<u8>) -> MockTransport {
        MockTransport { script, read_pos: 0, written: Vec::new() }
    }
}

impl Transport for MockTransport {
    fn write_all(&mut self, bytes: &Vec<u8>) -> Result<(), TransportError> {
        self.written.extend_from_slice(bytes);
        Ok(())
    }

    fn read_exact(&mut self, n: usize) -> Result<Vec<u8>, TransportError> {
        if self.script.len() - self.read_pos < n {
            return Err(TransportError::Closed);
        }
        let out = self.script[self.read_pos..self.read_pos + n].to_vec();
        self.read_pos += n;
        Ok(out)
    }
}

#[test]
fn auth_lines() {
    assert_eq!(hex_encode(&b"1000".to_vec()), b"31303030".to_vec());
    let line = build_auth_line(&SaslAuthType::External { identity: b"1000".to_vec() });
    assert_eq!(line, b"\0AUTH EXTERNAL 31303030\r\n".to_vec());
    let line = build_auth_line(&SaslAuthType::Anonymous);
    assert_eq!(line, b"\0AUTH ANONYMOUS\r\n".to_vec());
    assert_eq!(build_begin_line(), b"BEGIN\r\n".to_vec());
    assert!(check_ok_line(&b"OK 1234deadbeef".to_vec()));
    assert!(!check_ok_line(&b"REJECTED EXTERNAL".to_vec()));
}

#[test]
fn handshake_rejected_fails_without_retry() {
    let t = MockTransport::new(b"REJECTED EXTERNAL\r\n".to_vec());
    let r = Connection::new(t, SaslAuthType::Anonymous, Endianness::Little);
    assert!(r.is_err());
}

fn server_signal(serial: u32) -> Vec<u8> {
    let fields = vec![
        MessageHeaderField::Path(b"/org/example".to_vec()),
        MessageHeaderField::Interface("org.example.Iface".to_owned()),
        MessageHeaderField::Member("Something".to_owned()),
    ];
    encode_message(Endianness::Little, TYPE_SIGNAL, FLAG_NONE, serial, &fields, None).unwrap()
}

/// A server reply carries its signature field, so the reply to a method
/// call must itself frame the signature of its body; `encode_message`
/// takes the fields as given, so the test adds the signature by hand.
fn server_reply_with_sig(serial_of_call: u32, body: &Variant) -> Vec<u8> {
    let fields = vec![
        MessageHeaderField::ReplySerial(serial_of_call),
        MessageHeaderField::Signature(body.signature()),
    ];
    encode_message(
        Endianness::Little,
        TYPE_METHOD_RETURN,
        FLAG_NONE,
        77,
        &fields,
        Some(body),
    )
    .unwrap()
}

#[test]
fn hello_end_to_end() {
    // script: handshake acceptance, then the reply to the Hello call
    let mut script = b"OK 0123456789abcdef\r\n".to_vec();
    let name = Variant::Str("org.freedesktop.DBus".to_owned());
    script.extend_from_slice(&server_reply_with_sig(1, &name));

    let t = MockTransport::new(script);
    let conn = Connection::new(t, SaslAuthType::Anonymous, Endianness::Little).unwrap();
    let client = Client::new(conn).unwrap();
    assert_eq!(client.name.as_deref(), Some("org.freedesktop.DBus"));
    assert_eq!(client.last_serial, 1);

    // everything the client wrote: NUL, AUTH, BEGIN, then one binary
    // message starting with the endianness marker
    let written = &client.connection.transport.written;
    assert!(written.starts_with(b"\0AUTH ANONYMOUS\r\nBEGIN\r\n"));
    let msg = &written[b"\0AUTH ANONYMOUS\r\nBEGIN\r\n".len()..];
    assert_eq!(msg[0], b'l');
    assert_eq!(msg[1], 1, "method call type code");
    assert_eq!(msg[3], 1, "protocol version");
    assert_eq!(&msg[4..8], &[0, 0, 0, 0], "no body");
    assert_eq!(&msg[8..12], &[1, 0, 0, 0], "first serial is 1");
    assert_eq!(msg.len() % 8, 0, "message ends 8-aligned with empty body");
}

#[test]
fn out_of_order_delivery() {
    // the unrelated signal arrives before the awaited reply
    let mut script = Vec::new();
    script.extend_from_slice(&server_signal(900));
    let body = Variant::U32(5);
    script.extend_from_slice(&server_reply_with_sig(1, &body));

    let t = MockTransport::new(script);
    let mut client = Client {
        connection: Connection {
            transport: t,
            state: ConnState::Established,
            endianness: Endianness::Little,
        },
        last_serial: 0,
        name: None,
        received_messages: Vec::new(),
    };

    let mut header = MessageHeader {
        typ: MessageType::MethodCall {
            path: b"/org/example".to_vec(),
            member: "Frob".to_owned(),
        },
        flags: FLAG_NONE,
        body_len: 0,
        serial: 0,
        fields: vec![MessageHeaderField::Destination("org.example".to_owned())],
    };
    let serial = client.send(&mut header, None).unwrap();
    assert_eq!(serial, 1);

    // the predicate-based receive skips and buffers the signal
    let (rh, rbody) = client.recv_matching(&MessageMatcher::ReplyTo(serial)).unwrap();
    match rh.typ {
        MessageType::MethodReturn { reply_serial } => assert_eq!(reply_serial, serial),
        _ => panic!("expected the method return first"),
    }
    match rbody {
        Some(Variant::U32(x)) => assert_eq!(x, 5),
        _ => panic!("expected the reply body"),
    }

    // the buffered signal comes out of the next unconstrained receive
    let (sh, sbody) = client.recv().unwrap();
    match sh.typ {
        MessageType::Signal { path, interface, member } => {
            assert_eq!(path, b"/org/example".to_vec());
            assert_eq!(interface, "org.example.Iface");
            assert_eq!(member, "Something");
        },
        _ => panic!("expected the buffered signal"),
    }
    assert!(sbody.is_none());
    assert_eq!(sh.serial, 900);
}

#[test]
fn bad_method_call_arguments_are_rejected_before_sending() {
    let t = MockTransport::new(Vec::new());
    let mut client = Client {
        connection: Connection {
            transport: t,
            state: ConnState::Established,
            endianness: Endianness::Little,
        },
        last_serial: 7,
        name: None,
        received_messages: Vec::new(),
    };
    let r = client.method_call("org.example", b"no-leading-slash".to_vec(), "org.example", "M", None);
    assert!(matches!(r, Err(MethodCallError::InvalidArguments)));
    assert_eq!(client.last_serial, 7, "nothing was sent, no serial used");
    assert!(client.connection.transport.written.is_empty());
}

#[test]
fn classify_reply_sorts_returns_and_errors() {
    let ret = MessageHeader {
        typ: MessageType::MethodReturn { reply_serial: 5 },
        flags: FLAG_NONE,
        body_len: 0,
        serial: 1,
        fields: Vec::new(),
    };
    match classify_reply(ret, Some(Variant::U32(3))) {
        Ok(Some(Variant::U32(x))) => assert_eq!(x, 3),
        _ => panic!("method return must yield its body"),
    }
    let err = MessageHeader {
        typ: MessageType::Error { name: "org.example.Err".to_owned(), reply_serial: 5 },
        flags: FLAG_NONE,
        body_len: 0,
        serial: 2,
        fields: Vec::new(),
    };
    match classify_reply(err, None) {
        Err(MethodCallError::Error(name, body)) => {
            assert_eq!(name, "org.example.Err");
            assert!(body.is_none());
        },
        _ => panic!("error reply must yield the error"),
    }
}

#[test]
fn send_appends_exactly_one_sender_field() {
    let t = MockTransport::new(Vec::new());
    let mut client = Client {
        connection: Connection {
            transport: t,
            state: ConnState::Established,
            endianness: Endianness::Little,
        },
        last_serial: 0,
        name: Some("org.example.me".to_owned()),
        received_messages: Vec::new(),
    };
    let mut header = MessageHeader {
        typ: MessageType::MethodReturn { reply_serial: 3 },
        flags: FLAG_NONE,
        body_len: 0,
        serial: 0,
        fields: Vec::new(),
    };
    client.send(&mut header, None).unwrap();
    assert_eq!(header.fields.len(), 1);
    match &header.fields[0] {
        MessageHeaderField::Sender(n) => assert_eq!(n, "org.example.me"),
        _ => panic!("expected the sender field"),
    }
}

#[test]
fn closed_connection_refuses_work() {
    let t = MockTransport::new(Vec::new());
    let mut conn = Connection {
        transport: t,
        state: ConnState::Established,
        endianness: Endianness::Little,
    };
    conn.close();
    assert!(conn.recv().is_err());
    let header = MessageHeader {
        typ: MessageType::MethodReturn { reply_serial: 1 },
        flags: FLAG_NONE,
        body_len: 0,
        serial: 9,
        fields: Vec::new(),
    };
    assert!(conn.send(&header, None).is_err());
}

#[test]
fn recv_round_trips_a_framed_message() {
    // a message framed by the library is read back equal
    let body = Variant::Tuple {
        elements: vec![Variant::Str("x".to_owned()), Variant::U64(9)],
    };
    let script = server_reply_with_sig(4, &body);
    let t = MockTransport::new(script);
    let mut conn = Connection {
        transport: t,
        state: ConnState::Established,
        endianness: Endianness::Little,
    };
    let (h, b) = conn.recv().unwrap();
    assert_eq!(h.serial, 77);
    match h.typ {
        MessageType::MethodReturn { reply_serial } => assert_eq!(reply_serial, 4),
        _ => panic!("wrong type"),
    }
    match b {
        Some(Variant::Tuple { elements }) => {
            assert_eq!(elements.len(), 2);
            match &elements[1] {
                Variant::U64(x) => assert_eq!(*x, 9),
                _ => panic!("wrong element"),
            }
        },
        _ => panic!("expected a struct body"),
    }
}
