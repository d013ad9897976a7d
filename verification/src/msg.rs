//! Message framing: the fixed primary header, the header-fields array, and
//! the body, laid out bit-exactly as the wire format requires.
use vstd::prelude::*;

use crate::Endianness;
use crate::ser::{
    enc, pad, pad_len, as_u32, fits, Serializer, SerializeError, lemma_pad_idempotent,
};
use crate::val::{
    Val, Variant, valid, valid_path, valid_sig_string, sig_of, sigs_of, type_end, struct_end,
    view_list, lemma_view_list, lemma_valid_elems_build, T_BYTE, T_VAR, T_SOPEN, T_SCLOSE,
};
use crate::wire::{u32_bytes, push_u32, lemma_u32_round_trip, copy_range};

verus! {

/// No message flags.
pub const FLAG_NONE: u8 = 0;

/// The caller does not expect a reply.
pub const FLAG_NO_REPLY_EXPECTED: u8 = 1;

/// The bus must not auto-start a service for this message.
pub const FLAG_NO_AUTO_START: u8 = 2;

/// The wire protocol version carried in every primary header.
pub const PROTOCOL_VERSION: u8 = 1;

/// Wire code of a method call message.
pub const TYPE_METHOD_CALL: u8 = 1;

/// Wire code of a method return message.
pub const TYPE_METHOD_RETURN: u8 = 2;

/// Wire code of an error message.
pub const TYPE_ERROR: u8 = 3;

/// Wire code of a signal message.
pub const TYPE_SIGNAL: u8 = 4;

/// What kind of message a header announces, with the properties that the
/// kind requires.
pub enum MessageType {
    MethodCall { path: Vec<u8>, member: String },
    MethodReturn { reply_serial: u32 },
    Error { name: String, reply_serial: u32 },
    Signal { path: Vec<u8>, interface: String, member: String },
}

/// One optional typed item of metadata attached to a message.
pub enum MessageHeaderField {
    Path(Vec<u8>),
    Interface(String),
    Member(String),
    ErrorName(String),
    ReplySerial(u32),
    Destination(String),
    Sender(String),
    Signature(Vec<u8>),
    UnixFds(u32),
}

/// A message header: the fixed properties and the extensible field list.
/// The serial is assigned by the client when the message is sent.
pub struct MessageHeader {
    pub typ: MessageType,
    pub flags: u8,
    pub body_len: u32,
    pub serial: u32,
    pub fields: Vec<MessageHeaderField>,
}

/// The wire code of a header field.
pub open spec fn field_code(f: MessageHeaderField) -> u8 {
    match f {
        MessageHeaderField::Path(_) => 1,
        MessageHeaderField::Interface(_) => 2,
        MessageHeaderField::Member(_) => 3,
        MessageHeaderField::ErrorName(_) => 4,
        MessageHeaderField::ReplySerial(_) => 5,
        MessageHeaderField::Destination(_) => 6,
        MessageHeaderField::Sender(_) => 7,
        MessageHeaderField::Signature(_) => 8,
        MessageHeaderField::UnixFds(_) => 9,
    }
}

/// The value a header field carries.
pub open spec fn field_inner_val(f: MessageHeaderField) -> Val {
    match f {
        MessageHeaderField::Path(p) => Val::Path(p@),
        MessageHeaderField::Interface(s) => Val::Str(s@),
        MessageHeaderField::Member(s) => Val::Str(s@),
        MessageHeaderField::ErrorName(s) => Val::Str(s@),
        MessageHeaderField::ReplySerial(x) => Val::U32(x),
        MessageHeaderField::Destination(s) => Val::Str(s@),
        MessageHeaderField::Sender(s) => Val::Str(s@),
        MessageHeaderField::Signature(g) => Val::Sig(g@),
        MessageHeaderField::UnixFds(x) => Val::U32(x),
    }
}

/// A header field on the wire: a struct of its code byte and its value
/// wrapped in a self-describing variant.
pub open spec fn field_val(f: MessageHeaderField) -> Val {
    Val::Struct {
        fields: seq![
            Val::Byte(field_code(f)),
            Val::Var { inner: Box::new(field_inner_val(f)) },
        ],
    }
}

/// A well-formed header field: its text and grammar obey the wire limits.
pub open spec fn field_ok(f: MessageHeaderField) -> bool {
    match f {
        MessageHeaderField::Path(p) => valid_path(p@),
        MessageHeaderField::Interface(s) => vstd::utf8::encode_utf8(s@).len() < 0x1_0000_0000,
        MessageHeaderField::Member(s) => vstd::utf8::encode_utf8(s@).len() < 0x1_0000_0000,
        MessageHeaderField::ErrorName(s) => vstd::utf8::encode_utf8(s@).len() < 0x1_0000_0000,
        MessageHeaderField::Destination(s) => vstd::utf8::encode_utf8(s@).len() < 0x1_0000_0000,
        MessageHeaderField::Sender(s) => vstd::utf8::encode_utf8(s@).len() < 0x1_0000_0000,
        MessageHeaderField::Signature(g) => valid_sig_string(g@),
        _ => true,
    }
}

/// The signature of one header field struct.
pub open spec fn sig_yv() -> Seq<u8> {
    seq![T_SOPEN, T_BYTE, T_VAR, T_SCLOSE]
}

/// A well-formed header field is a well-formed wire value with the field
/// struct signature.
pub proof fn lemma_field_val_valid(f: MessageHeaderField)
    requires
        field_ok(f),
    ensures
        valid(field_val(f)),
        sig_of(field_val(f)) == sig_yv(),
{
    reveal_with_fuel(sigs_of, 3);
    let fs = seq![Val::Byte(field_code(f)), Val::Var { inner: Box::new(field_inner_val(f)) }];
    assert(fs.subrange(1, 2) =~= seq![fs[1]]);
    assert(seq![fs[1]].subrange(1, 1) =~= Seq::<Val>::empty());
    assert(sigs_of(fs) =~= seq![T_BYTE, T_VAR]);
    assert(sig_of(field_val(f)) =~= sig_yv());
    assert(valid(field_val(f))) by {
        reveal_with_fuel(crate::val::valid_list, 3);
        assert(valid(field_inner_val(f)));
        assert(sig_of(field_inner_val(f)).len() == 1);
        assert(valid(fs[1]));
        assert(fs.subrange(1, 2) =~= seq![fs[1]]);
        assert(seq![fs[1]].subrange(1, 1) =~= Seq::<Val>::empty());
        valid_list_two(fs);
    }
}

/// A two-value list is well formed when both values are.
pub proof fn valid_list_two(fs: Seq<Val>)
    requires
        fs.len() == 2,
        valid(fs[0]),
        valid(fs[1]),
    ensures
        crate::val::valid_list(fs),
{
    reveal_with_fuel(crate::val::valid_list, 3);
    assert(fs.subrange(1, 2) =~= seq![fs[1]]);
    assert(seq![fs[1]].subrange(1, 1) =~= Seq::<Val>::empty());
    assert(crate::val::valid_list(seq![fs[1]].subrange(1, 1)));
    assert(crate::val::valid_list(fs.subrange(1, 2)));
}

/// The endianness marker byte that starts every message.
pub open spec fn endian_marker(e: Endianness) -> u8 {
    match e {
        Endianness::Little => 108,
        Endianness::Big => 66,
    }
}

/// The wire values of a message's header fields, in order.
pub open spec fn fields_vals(fs: Seq<MessageHeaderField>) -> Seq<Val> {
    fs.map_values(|f: MessageHeaderField| field_val(f))
}

/// `fields_vals` maps each field to its wire value.
pub proof fn lemma_fields_vals_index(fs: Seq<MessageHeaderField>)
    ensures
        fields_vals(fs).len() == fs.len(),
        forall|j: int| 0 <= j < fs.len() ==> fields_vals(fs)[j] == field_val(#[trigger] fs[j]),
{
}

/// The header-fields array of a message, as one wire value.
pub open spec fn fields_arr_val(fvals: Seq<Val>) -> Val {
    Val::Arr { esig: sig_yv(), elems: fvals }
}

/// A header field struct value from its code and carried value.
pub open spec fn field_val2(code: u8, inner: Val) -> Val {
    Val::Struct { fields: seq![Val::Byte(code), Val::Var { inner: Box::new(inner) }] }
}

/// The exact bytes of one whole message: primary header, header-fields
/// array, padding to eight, then the body.
pub open spec fn msg_bytes(
    e: Endianness,
    tc: u8,
    fl: u8,
    serial: u32,
    fvals: Seq<Val>,
    bv: Option<Val>,
) -> Seq<u8> {
    let bodyb = match bv {
        Option::None => Seq::<u8>::empty(),
        Option::Some(b) => enc(b, e, 0),
    };
    let head = seq![endian_marker(e), tc, fl, PROTOCOL_VERSION] + u32_bytes(
        e,
        as_u32(bodyb.len() as int),
    ) + u32_bytes(e, serial) + enc(fields_arr_val(fvals), e, 12);
    head + pad(head.len() as int, 8) + bodyb
}

/// When a message can be framed: the body and the field array fit their
/// wire length fields.
pub open spec fn msg_fits(e: Endianness, fvals: Seq<Val>, bv: Option<Val>) -> bool {
    &&& match bv {
        Option::None => true,
        Option::Some(b) => fits(b, e, 0) && enc(b, e, 0).len() < 0x1_0000_0000,
    }
    &&& fits(fields_arr_val(fvals), e, 12)
}

/// The body value a framing call was given.
pub open spec fn body_val(body: Option<&Variant>) -> Option<Val> {
    match body {
        Option::None => Option::<Val>::None,
        Option::Some(b) => Option::Some(b@),
    }
}

/// An owned copy of a byte vector.
fn dup_bytes(v: &Vec<u8>) -> (r: Vec<u8>)
    ensures
        r@ == v@,
{
    let r = copy_range(v, 0, v.len());
    assert(r@ =~= v@);
    r
}

/// One header field as a wire value.
fn field_variant(f: &MessageHeaderField) -> (r: Variant)
    ensures
        r@ == field_val(*f),
{
    let (code, inner): (u8, Variant) = match f {
        MessageHeaderField::Path(p) => (1, Variant::ObjectPath(dup_bytes(p))),
        MessageHeaderField::Interface(s) => (2, Variant::Str(s.clone())),
        MessageHeaderField::Member(s) => (3, Variant::Str(s.clone())),
        MessageHeaderField::ErrorName(s) => (4, Variant::Str(s.clone())),
        MessageHeaderField::ReplySerial(x) => (5, Variant::U32(*x)),
        MessageHeaderField::Destination(s) => (6, Variant::Str(s.clone())),
        MessageHeaderField::Sender(s) => (7, Variant::Str(s.clone())),
        MessageHeaderField::Signature(g) => (8, Variant::Signature(dup_bytes(g))),
        MessageHeaderField::UnixFds(x) => (9, Variant::U32(*x)),
    };
    assert(code == field_code(*f));
    assert(inner@ == field_inner_val(*f));
    let ghost iv = inner@;
    let mut elements: Vec<Variant> = Vec::new();
    elements.push(Variant::Byte(code));
    let w2 = Variant::VariantValue(Box::new(inner));
    assert(w2@ == Val::Var { inner: Box::new(iv) });
    elements.push(w2);
    let ghost es = elements@;
    let r = Variant::Tuple { elements };
    proof {
        lemma_view_list(es);
        assert(view_list(es).len() == 2);
        assert(view_list(es)[0] == es[0]@);
        assert(view_list(es)[1] == es[1]@);
        assert(view_list(es) =~= field_val(*f)->Struct_fields);
    }
    r
}

/// Frame one message: returns exactly the wire bytes of the primary
/// header, the header-fields array, the padding, and the body. Succeeds
/// exactly when every wire length field fits.
#[verifier::rlimit(100)]
pub fn encode_message(
    e: Endianness,
    tc: u8,
    fl: u8,
    serial: u32,
    fields: &Vec<MessageHeaderField>,
    body: Option<&Variant>,
) -> (r: Result<Vec<u8>, SerializeError>)
    requires
        forall|i: int| 0 <= i < fields@.len() ==> field_ok(#[trigger] fields@[i]),
        body matches Some(b) ==> valid(b@),
        msg_bytes(e, tc, fl, serial, fields_vals(fields@), body_val(body)).len() <= usize::MAX,
    ensures
        r is Ok <==> msg_fits(e, fields_vals(fields@), body_val(body)),
        r is Ok ==> r->Ok_0@ == msg_bytes(e, tc, fl, serial, fields_vals(fields@), body_val(body)),
{
    let ghost bv = body_val(body);
    let ghost bodyb = match bv {
        Option::None => Seq::<u8>::empty(),
        Option::Some(b) => enc(b, e, 0),
    };
    let ghost fv = fields_arr_val(fields_vals(fields@));
    let mut body_buf: Vec<u8> = Vec::new();
    match body {
        Some(b) => {
            let mut bs = Serializer::new(body_buf, e);
            match bs.serialize(b) {
                Ok(()) => {},
                Err(er) => {
                    return Err(er);
                },
            }
            body_buf = bs.buf;
            assert(body_buf@ == bodyb);
        },
        None => {
            assert(body_buf@ =~= bodyb);
        },
    }
    if body_buf.len() > (u32::MAX as usize) {
        return Err(SerializeError::ExceedsNumericLimits);
    }
    let mut elements: Vec<Variant> = Vec::new();
    let ghost fvals = fields_vals(fields@);
    let mut i: usize = 0;
    while i < fields.len()
        invariant
            i <= fields@.len(),
            fvals == fields_vals(fields@),
            view_list(elements@) == fvals.take(i as int),
            elements@.len() == i,
            forall|j: int| 0 <= j < fields@.len() ==> field_ok(#[trigger] fields@[j]),
        decreases fields@.len() - i,
    {
        let w = field_variant(&fields[i]);
        let ghost pre = elements@;
        elements.push(w);
        proof {
            lemma_view_list(elements@);
            lemma_view_list(pre);
            assert(fvals[i as int] == field_val(fields@[i as int]));
            assert forall|j: int| 0 <= j < i + 1 implies view_list(elements@)[j] == fvals.take(
                i as int + 1,
            )[j] by {
                if j < i {
                    assert(view_list(pre)[j] == fvals.take(i as int)[j]);
                    assert(pre[j] == elements@[j]);
                    assert(view_list(elements@)[j] == elements@[j]@);
                } else {
                    assert(elements@[j] == w);
                    assert(view_list(elements@)[j] == elements@[j]@);
                }
            }
            assert(view_list(elements@) =~= fvals.take(i as int + 1));
        }
        i = i + 1;
    }
    let mut esig: Vec<u8> = Vec::new();
    esig.push(T_SOPEN);
    esig.push(T_BYTE);
    esig.push(T_VAR);
    esig.push(T_SCLOSE);
    proof {
        assert(esig@ =~= sig_yv());
        assert(fvals.take(fields@.len() as int) =~= fvals);
    }
    let fa = Variant::Array { element_signature: esig, elements };
    proof {
        assert(fa@ == fv);
        assert forall|j: int| 0 <= j < fvals.len() implies valid(#[trigger] fvals[j]) && sig_of(
            fvals[j],
        ) == sig_yv() by {
            lemma_field_val_valid(fields@[j]);
        }
        lemma_valid_elems_build(fvals, sig_yv());
        reveal_with_fuel(type_end, 4);
        reveal_with_fuel(struct_end, 4);
        assert(type_end(sig_yv(), 1) == 2);
        assert(struct_end(sig_yv(), 1) == 4);
        assert(type_end(sig_yv(), 0) == 4);
        assert(valid(fv));
    }
    let hbuf: Vec<u8> = Vec::new();
    let mut hs = Serializer::new(hbuf, e);
    hs.buf.push(match e {
        Endianness::Little => 108,
        Endianness::Big => 66,
    });
    hs.buf.push(tc);
    hs.buf.push(fl);
    hs.buf.push(PROTOCOL_VERSION);
    proof {
        lemma_u32_round_trip(e, body_buf@.len() as u32);
        lemma_u32_round_trip(e, serial);
    }
    push_u32(&mut hs.buf, e, body_buf.len() as u32);
    push_u32(&mut hs.buf, e, serial);
    assert(hs.buf@ =~= seq![endian_marker(e), tc, fl, PROTOCOL_VERSION] + u32_bytes(
        e,
        as_u32(bodyb.len() as int),
    ) + u32_bytes(e, serial));
    assert(hs.pos() == 12);
    match hs.serialize(&fa) {
        Ok(()) => {},
        Err(er) => {
            return Err(er);
        },
    }
    hs.pad_to(8);
    let mut out = hs.buf;
    out.extend_from_slice(body_buf.as_slice());
    proof {
        assert(out@ =~= msg_bytes(e, tc, fl, serial, fields_vals(fields@), bv));
    }
    Ok(out)
}

} // verus!
