//! A D-Bus client facade: assigns serial numbers to outgoing messages,
//! and buffers received messages so that a caller waiting for one message
//! does not lose the others.
use vstd::prelude::*;

use crate::Endianness;
use crate::conn::{
    Connection, ConnState, Transport, SendError, RecvError, send_fvals, typ_ok, type_code_of,
    body_sig_ok,
};
use crate::msg::{
    MessageHeader, MessageHeaderField, MessageType, msg_bytes, msg_fits, body_val, field_ok,
    field_val, field_val2, fields_vals, lemma_fields_vals_index, FLAG_NONE,
};
use crate::val::{Val, Variant, valid, valid_path, sig_of};

verus! {

/// A received message: its header and its body, if it has one.
pub type Message = (MessageHeader, Option<Variant>);

/// The serial assigned after `last`: serials start at 1, grow by one, and
/// wrap from the largest 32-bit value back to 1; 0 is never assigned.
pub open spec fn spec_next_serial(last: u32) -> u32 {
    if last == 0xffff_ffffu32 {
        1
    } else {
        (last + 1) as u32
    }
}

/// The serial assigned after `last`. It is never 0.
pub fn next_serial(last: u32) -> (r: u32)
    ensures
        r == spec_next_serial(last),
        r != 0,
{
    if last == 0xffff_ffffu32 {
        1
    } else {
        last + 1
    }
}

/// What a receive call waits for.
pub enum MessageMatcher {
    /// Any message.
    Any,
    /// A method return or error whose reply serial is the given serial.
    ReplyTo(u32),
}

/// Whether a message header satisfies a matcher.
pub open spec fn matcher_matches(m: MessageMatcher, h: MessageHeader) -> bool {
    match m {
        MessageMatcher::Any => true,
        MessageMatcher::ReplyTo(s) => match h.typ {
            MessageType::MethodReturn { reply_serial } => reply_serial == s,
            MessageType::Error { reply_serial, .. } => reply_serial == s,
            _ => false,
        },
    }
}

/// Whether a message header satisfies a matcher.
pub fn matches_header(m: &MessageMatcher, h: &MessageHeader) -> (r: bool)
    ensures
        r == matcher_matches(*m, *h),
{
    match m {
        MessageMatcher::Any => true,
        MessageMatcher::ReplyTo(s) => match &h.typ {
            MessageType::MethodReturn { reply_serial } => *reply_serial == *s,
            MessageType::Error { reply_serial, .. } => *reply_serial == *s,
            _ => false,
        },
    }
}

/// How many non-matching messages one receive call will buffer before it
/// gives up waiting.
pub const MAX_PENDING: usize = 65536;

/// An error from creating a client.
#[derive(Debug)]
pub enum CreateClientError {
    /// The initial name request failed.
    Hello(MethodCallError),
    /// The name request was answered with something other than one text
    /// value; the body is kept for the caller.
    UnexpectedMessage(Option<Variant>),
}

/// An error from calling a method through a client.
#[derive(Debug)]
pub enum MethodCallError {
    /// An argument breaks the object-path grammar or a wire length limit;
    /// nothing was sent.
    InvalidArguments,
    /// The call was answered by an error message: its name and body.
    Error(String, Option<Variant>),
    /// The response could not be received.
    RecvResponse(RecvError),
    /// The request could not be sent.
    SendRequest(SendError),
}

/// A D-Bus client over a transport `T`: a connection, the last serial it
/// assigned, the name the bus gave it, and the buffer of received
/// messages not yet asked for, in arrival order.
pub struct Client<T> {
    pub connection: Connection<T>,
    pub last_serial: u32,
    pub name: Option<String>,
    pub received_messages: Vec<Message>,
}

/// The field values a client send adds after the connection's own: the
/// sender name, when the client has one.
pub open spec fn sender_fvals(name: Option<String>) -> Seq<Val> {
    match name {
        Option::None => Seq::<Val>::empty(),
        Option::Some(n) => seq![field_val2(7, Val::Str(n@))],
    }
}

/// The name string a client holds is well formed for the wire.
pub open spec fn name_ok(name: Option<String>) -> bool {
    match name {
        Option::None => true,
        Option::Some(n) => vstd::utf8::encode_utf8(n@).len() < 0x1_0000_0000,
    }
}

/// All header field values of one method call, in the order a client
/// sends them: path and member, the body signature if a body is given,
/// destination and interface, then the sender if the client has a name.
pub open spec fn mc_fvals(
    destination: Seq<char>,
    path: Seq<u8>,
    interface: Seq<char>,
    member: Seq<char>,
    bv: Option<Val>,
    name: Option<String>,
) -> Seq<Val> {
    seq![field_val2(1, Val::Path(path)), field_val2(3, Val::Str(member))] + (match bv {
        Option::None => Seq::<Val>::empty(),
        Option::Some(b) => seq![field_val2(8, Val::Sig(sig_of(b)))],
    }) + seq![field_val2(6, Val::Str(destination)), field_val2(2, Val::Str(interface))]
        + sender_fvals(name)
}

/// The arguments of a method call obey the wire grammar and its length
/// limits: a well-formed object path and texts below the 32-bit length
/// field, in UTF-8 bytes.
pub open spec fn mc_inputs_ok(
    destination: Seq<char>,
    path: Seq<u8>,
    interface: Seq<char>,
    member: Seq<char>,
) -> bool {
    &&& valid_path(path)
    &&& vstd::utf8::encode_utf8(destination).len() < 0x1_0000_0000
    &&& vstd::utf8::encode_utf8(interface).len() < 0x1_0000_0000
    &&& vstd::utf8::encode_utf8(member).len() < 0x1_0000_0000
}

/// Sort a matched reply into a method call's result: a method return
/// yields its body, an error reply yields the error's name and body.
pub fn classify_reply(header: MessageHeader, body: Option<Variant>) -> (r: Result<
    Option<Variant>,
    MethodCallError,
>)
    requires
        header.typ is MethodReturn || header.typ is Error,
    ensures
        header.typ is MethodReturn ==> r == Result::<Option<Variant>, MethodCallError>::Ok(body),
        header.typ matches MessageType::Error { name, .. } ==> r == Result::<
            Option<Variant>,
            MethodCallError,
        >::Err(MethodCallError::Error(name, body)),
{
    match header.typ {
        MessageType::Error { name, .. } => Err(MethodCallError::Error(name, body)),
        MessageType::MethodReturn { .. } => Ok(body),
        _ => {
            proof {
                assert(false);
            }
            Err(MethodCallError::InvalidArguments)
        },
    }
}

/// The method call's wire bytes fit in this machine's memory.
pub open spec fn method_call_fits(
    e: Endianness,
    last: u32,
    destination: Seq<char>,
    path: Seq<u8>,
    interface: Seq<char>,
    member: Seq<char>,
    bv: Option<Val>,
    name: Option<String>,
) -> bool {
    msg_bytes(
        e,
        1,
        0,
        spec_next_serial(last),
        mc_fvals(destination, path, interface, member, bv, name),
        bv,
    ).len() <= usize::MAX
}

impl<T: Transport> Client<T> {
    /// Open a client on an established connection and complete the
    /// initial name request: it asks the bus for its unique name and
    /// keeps it, so that every later message carries a sender field.
    pub fn new(connection: Connection<T>) -> (r: Result<Client<T>, CreateClientError>)
        requires
            method_call_fits(
                connection.endianness,
                0,
                "org.freedesktop.DBus"@,
                vstd::utf8::encode_utf8("/org/freedesktop/DBus"@),
                "org.freedesktop.DBus"@,
                "Hello"@,
                Option::<Val>::None,
                Option::<String>::None,
            ),
        ensures
            r is Ok ==> r->Ok_0.name is Some && r->Ok_0.last_serial == 1,
            r matches Err(CreateClientError::UnexpectedMessage(b)) ==> !(b matches Some(w)
                && w is Str),
    {
        let mut client = Client {
            connection,
            last_serial: 0,
            name: None,
            received_messages: Vec::new(),
        };
        let path = vstd::slice::slice_to_vec("/org/freedesktop/DBus".as_bytes());
        let body = match client.method_call(
            "org.freedesktop.DBus",
            path,
            "org.freedesktop.DBus",
            "Hello",
            None,
        ) {
            Ok(b) => b,
            Err(er) => {
                return Err(CreateClientError::Hello(er));
            },
        };
        match body {
            Some(Variant::Str(s)) => {
                client.name = Some(s);
                Ok(client)
            },
            other => Err(CreateClientError::UnexpectedMessage(other)),
        }
    }

    /// Send a method call and receive its reply: the matching method
    /// return's body on success, or the matching error message as an
    /// error. Inputs that break the wire grammar or its limits are
    /// rejected before anything is sent.
    pub fn method_call(
        &mut self,
        destination: &str,
        path: Vec<u8>,
        interface: &str,
        member: &str,
        parameters: Option<&Variant>,
    ) -> (r: Result<Option<Variant>, MethodCallError>)
        requires
            name_ok(old(self).name),
            parameters matches Some(b) ==> valid(b@),
            method_call_fits(
                old(self).connection.endianness,
                old(self).last_serial,
                destination@,
                path@,
                interface@,
                member@,
                body_val(parameters),
                old(self).name,
            ),
        ensures
            final(self).name == old(self).name,
            r matches Err(MethodCallError::InvalidArguments) <==> !mc_inputs_ok(
                destination@,
                path@,
                interface@,
                member@,
            ),
            !mc_inputs_ok(destination@, path@, interface@, member@) ==> *final(self) == *old(self),
            mc_inputs_ok(destination@, path@, interface@, member@) ==> final(self).last_serial
                == spec_next_serial(old(self).last_serial),
            (forall|j: int|
                0 <= j < old(self).received_messages@.len() ==> !matcher_matches(
                    MessageMatcher::ReplyTo(spec_next_serial(old(self).last_serial)),
                    #[trigger] old(self).received_messages@[j].0,
                )) ==> old(self).received_messages@.is_prefix_of(
                final(self).received_messages@,
            ),
            mc_inputs_ok(destination@, path@, interface@, member@) && old(
                self,
            ).connection.state is Closed ==> r matches Err(
                MethodCallError::SendRequest(SendError::ConnectionClosed),
            ),
    {
        if !crate::de::check_path(&path) {
            return Err(MethodCallError::InvalidArguments);
        }
        if destination.as_bytes().len() as u64 >= 0x1_0000_0000u64 {
            return Err(MethodCallError::InvalidArguments);
        }
        if interface.as_bytes().len() as u64 >= 0x1_0000_0000u64 {
            return Err(MethodCallError::InvalidArguments);
        }
        if member.as_bytes().len() as u64 >= 0x1_0000_0000u64 {
            return Err(MethodCallError::InvalidArguments);
        }
        let mut fields: Vec<MessageHeaderField> = Vec::new();
        fields.push(MessageHeaderField::Destination(destination.to_owned()));
        fields.push(MessageHeaderField::Interface(interface.to_owned()));
        let ghost pathv = path@;
        let mut header = MessageHeader {
            typ: MessageType::MethodCall { path, member: member.to_owned() },
            flags: FLAG_NONE,
            body_len: 0,
            serial: 0,
            fields,
        };
        proof {
            lemma_fields_vals_index(header.fields@);
            assert(send_fvals(*&header, body_val(parameters)) + sender_fvals(old(self).name)
                =~= mc_fvals(
                destination@,
                pathv,
                interface@,
                member@,
                body_val(parameters),
                old(self).name,
            ));
        }
        let serial = match self.send(&mut header, parameters) {
            Ok(s) => s,
            Err(er) => {
                return Err(MethodCallError::SendRequest(er));
            },
        };
        let response = match self.recv_matching(&MessageMatcher::ReplyTo(serial)) {
            Ok(t) => t,
            Err(er) => {
                return Err(MethodCallError::RecvResponse(er));
            },
        };
        let (rh, rbody) = response;
        classify_reply(rh, rbody)
    }

    /// Assign the next serial to the header, append the sender field if
    /// the client has a name, and send the message. Returns the serial.
    /// Serials are strictly the successor sequence with wraparound to 1.
    pub fn send(&mut self, header: &mut MessageHeader, body: Option<&Variant>) -> (r: Result<
        u32,
        SendError,
    >)
        requires
            typ_ok(old(header).typ),
            name_ok(old(self).name),
            forall|i: int|
                0 <= i < old(header).fields@.len() ==> field_ok(#[trigger] old(header).fields@[i]),
            body matches Some(b) ==> valid(b@),
            msg_bytes(
                old(self).connection.endianness,
                type_code_of(old(header).typ),
                old(header).flags,
                spec_next_serial(old(self).last_serial),
                send_fvals(*old(header), body_val(body)) + sender_fvals(old(self).name),
                body_val(body),
            ).len() <= usize::MAX,
        ensures
            final(self).last_serial == spec_next_serial(old(self).last_serial),
            final(self).name == old(self).name,
            final(self).received_messages == old(self).received_messages,
            final(self).connection.state == old(self).connection.state,
            final(self).connection.endianness == old(self).connection.endianness,
            r is Ok ==> r->Ok_0 == final(self).last_serial && r->Ok_0 != 0,
            final(header).serial == final(self).last_serial,
            final(header).typ == old(header).typ,
            final(header).flags == old(header).flags,
            old(self).name is None ==> final(header).fields == old(header).fields,
            old(self).name matches Some(n) ==> final(header).fields@ == old(
                header,
            ).fields@.push(MessageHeaderField::Sender(n)),
            old(self).connection.state is Closed <==> r matches Err(SendError::ConnectionClosed),
            old(self).connection.state is Established ==> (r matches Err(SendError::Serialize(_))
                <==> !(body_sig_ok(body_val(body)) && msg_fits(
                old(self).connection.endianness,
                send_fvals(*old(header), body_val(body)) + sender_fvals(old(self).name),
                body_val(body),
            ))),
    {
        let serial = next_serial(self.last_serial);
        self.last_serial = serial;
        header.serial = serial;
        match &self.name {
            Some(n) => {
                let ghost pre = header.fields@;
                header.fields.push(MessageHeaderField::Sender(n.clone()));
                proof {
                    lemma_fields_vals_index(header.fields@);
                    lemma_fields_vals_index(pre);
                    assert(fields_vals(header.fields@) =~= fields_vals(pre) + sender_fvals(
                        old(self).name,
                    ));
                }
            },
            None => {},
        }
        proof {
            assert(header.typ == old(header).typ);
            assert(send_fvals(*header, body_val(body)) =~= send_fvals(*old(header), body_val(body))
                + sender_fvals(old(self).name));
        }
        match self.connection.send(&*header, body) {
            Ok(()) => Ok(serial),
            Err(er) => Err(er),
        }
    }

    /// Receive one message: the oldest buffered one if any is waiting,
    /// else the next message from the bus.
    pub fn recv(&mut self) -> (r: Result<Message, RecvError>)
        ensures
            final(self).last_serial == old(self).last_serial,
            final(self).name == old(self).name,
            old(self).received_messages@.len() > 0 ==> r is Ok && r->Ok_0 == old(self).received_messages@[0] && final(self).received_messages@ == old(self).received_messages@.skip(1),
            old(self).received_messages@.len() == 0 ==> final(self).received_messages == old(self).received_messages,
    {
        if self.received_messages.len() > 0 {
            let m = self.received_messages.remove(0);
            proof {
                assert(self.received_messages@ =~= old(self).received_messages@.skip(1));
            }
            return Ok(m);
        }
        self.connection.recv()
    }

    /// Receive the first message that satisfies the matcher. Buffered
    /// messages are searched first, in arrival order; a message taken out
    /// leaves the rest in order. Messages read from the bus that do not
    /// match are buffered, in arrival order, for later receives.
    pub fn recv_matching(&mut self, m: &MessageMatcher) -> (r: Result<Message, RecvError>)
        ensures
            final(self).last_serial == old(self).last_serial,
            final(self).name == old(self).name,
            r is Ok ==> matcher_matches(*m, r->Ok_0.0),
            forall|j: int|
                0 <= j < old(self).received_messages@.len() && matcher_matches(
                    *m,
                    #[trigger] old(self).received_messages@[j].0,
                ) && (forall|k: int|
                    0 <= k < j ==> !matcher_matches(
                        *m,
                        #[trigger] old(self).received_messages@[k].0,
                    )) ==> r is Ok && r->Ok_0 == old(self).received_messages@[j] && final(self).received_messages@ == old(self).received_messages@.subrange(0, j) + old(self).received_messages@.skip(j + 1),
            (forall|j: int|
                0 <= j < old(self).received_messages@.len() ==> !matcher_matches(
                    *m,
                    #[trigger] old(self).received_messages@[j].0,
                )) ==> old(self).received_messages@.is_prefix_of(final(self).received_messages@),
    {
        let mut i: usize = 0;
        while i < self.received_messages.len()
            invariant
                i <= self.received_messages@.len(),
                self == old(self),
                forall|k: int|
                    0 <= k < i ==> !matcher_matches(
                        *m,
                        #[trigger] self.received_messages@[k].0,
                    ),
            decreases self.received_messages@.len() - i,
        {
            if matches_header(m, &self.received_messages[i].0) {
                let found = self.received_messages.remove(i);
                proof {
                    assert(self.received_messages@ =~= old(self).received_messages@.subrange(
                        0,
                        i as int,
                    ) + old(self).received_messages@.skip(i as int + 1));
                }
                return Ok(found);
            }
            i = i + 1;
        }
        let mut tries: usize = 0;
        while tries < MAX_PENDING
            invariant
                self.last_serial == old(self).last_serial,
                self.name == old(self).name,
                forall|k: int|
                    0 <= k < old(self).received_messages@.len() ==> !matcher_matches(
                        *m,
                        #[trigger] old(self).received_messages@[k].0,
                    ),
                old(self).received_messages@.is_prefix_of(self.received_messages@),
            decreases MAX_PENDING - tries,
        {
            let msg = match self.connection.recv() {
                Ok(t) => t,
                Err(er) => {
                    return Err(er);
                },
            };
            if matches_header(m, &msg.0) {
                return Ok(msg);
            }
            self.received_messages.push(msg);
            tries = tries + 1;
        }
        Err(RecvError::TooManyUnmatched)
    }
}

} // verus!
