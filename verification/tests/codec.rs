//! Round-trip and wire-layout tests for the value codec.
use dbus_pure::Endianness;
use dbus_pure::de::{decode, DecodeError};
use dbus_pure::ser::Serializer;
use dbus_pure::val::Variant;

fn variant_eq(a: &Variant, b: &Variant) -> bool {
    match (a, b) {
        (Variant::Byte(x), Variant::Byte(y)) => x == y,
        (Variant::Boolean(x), Variant::Boolean(y)) => x == y,
        (Variant::I16(x), Variant::I16(y)) => x == y,
        (Variant::U16(x), Variant::U16(y)) => x == y,
        (Variant::I32(x), Variant::I32(y)) => x == y,
        (Variant::U32(x), Variant::U32(y)) => x == y,
        (Variant::I64(x), Variant::I64(y)) => x == y,
        (Variant::U64(x), Variant::U64(y)) => x == y,
        (Variant::F64Bits(x), Variant::F64Bits(y)) => x == y,
        (Variant::Str(x), Variant::Str(y)) => x == y,
        (Variant::ObjectPath(x), Variant::ObjectPath(y)) => x == y,
        (Variant::Signature(x), Variant::Signature(y)) => x == y,
        (
            Variant::Array { element_signature: sa, elements: ea },
            Variant::Array { element_signature: sb, elements: eb },
        ) => {
            sa == sb && ea.len() == eb.len() && ea.iter().zip(eb.iter()).all(
                |(x, y)| variant_eq(x, y),
            )
        },
        (Variant::Tuple { elements: ea }, Variant::Tuple { elements: eb }) => {
            ea.len() == eb.len() && ea.iter().zip(eb.iter()).all(|(x, y)| variant_eq(x, y))
        },
        (
            Variant::DictEntry { key: ka, value: va },
            Variant::DictEntry { key: kb, value: vb },
        ) => variant_eq(ka, kb) && variant_eq(va, vb),
        (Variant::VariantValue(x), Variant::VariantValue(y)) => variant_eq(x, y),
        (Variant::UnixFd(x), Variant::UnixFd(y)) => x == y,
        _ => false,
    }
}

fn round_trip(v: &Variant, e: Endianness) {
    let mut ser = Serializer::new(Vec::new(), e);
    ser.serialize(v).expect("encoding must succeed");
    let data = ser.buf;
    let sig = v.signature();
    let (w, pos, si) = decode(&data, e, 0, &sig, 0).expect("decoding must succeed");
    assert_eq!(pos, data.len(), "whole encoding consumed");
    assert_eq!(si, sig.len(), "whole signature consumed");
    assert!(variant_eq(v, &w), "value round-trips");
}

fn samples() -> Vec<Variant> {
    vec![
        Variant::Byte(0),
        Variant::Byte(255),
        Variant::Boolean(true),
        Variant::Boolean(false),
        Variant::I16(-2),
        Variant::U16(0xBEEF),
        Variant::I32(-70000),
        Variant::U32(0xDEAD_BEEF),
        Variant::I64(-5_000_000_000),
        Variant::U64(0xFEED_FACE_CAFE_BEEF),
        Variant::F64Bits(1.5f64.to_bits()),
        Variant::UnixFd(3),
        Variant::Str(String::new()),
        Variant::Str("hello world".to_owned()),
        Variant::Str("snowman \u{2603} and \u{1F600}".to_owned()),
        Variant::ObjectPath(b"/".to_vec()),
        Variant::ObjectPath(b"/org/freedesktop/DBus".to_vec()),
        Variant::Signature(b"".to_vec()),
        Variant::Signature(b"a{sv}(ii)".to_vec()),
        Variant::Array { element_signature: b"t".to_vec(), elements: vec![] },
        Variant::Array {
            element_signature: b"t".to_vec(),
            elements: vec![Variant::U64(1), Variant::U64(2), Variant::U64(3)],
        },
        Variant::Array {
            element_signature: b"s".to_vec(),
            elements: vec![Variant::Str("a".to_owned()), Variant::Str("bcd".to_owned())],
        },
        Variant::Array {
            element_signature: b"{su}".to_vec(),
            elements: vec![Variant::DictEntry {
                key: Box::new(Variant::Str("k".to_owned())),
                value: Box::new(Variant::U32(7)),
            }],
        },
        Variant::Tuple {
            elements: vec![
                Variant::Byte(1),
                Variant::U64(2),
                Variant::Str("three".to_owned()),
            ],
        },
        Variant::VariantValue(Box::new(Variant::U32(42))),
        Variant::VariantValue(Box::new(Variant::Array {
            element_signature: b"y".to_vec(),
            elements: vec![Variant::Byte(9)],
        })),
    ]
}

#[test]
fn round_trip_little_endian() {
    for v in samples() {
        round_trip(&v, Endianness::Little);
    }
}

#[test]
fn round_trip_big_endian() {
    for v in samples() {
        round_trip(&v, Endianness::Big);
    }
}

#[test]
fn round_trip_at_odd_offsets() {
    // A value encoded mid-message pads relative to the message start.
    for start_garbage in 1..=7usize {
        let mut buf = vec![0xAAu8; start_garbage];
        let start = buf.len();
        let mut ser = Serializer::new(std::mem::take(&mut buf), Endianness::Little);
        // message starts at `start`: positions are relative to it
        let v = Variant::Tuple {
            elements: vec![Variant::U16(5), Variant::U64(6)],
        };
        ser.serialize(&v).unwrap();
        let data = ser.buf;
        let sig = v.signature();
        // decoding is relative to offset 0 of the message, so strip prefix
        let msg: Vec<u8> = data[start..].to_vec();
        let (w, pos, _) = decode(&msg, Endianness::Little, 0, &sig, 0).unwrap();
        assert_eq!(pos, msg.len());
        assert!(variant_eq(&v, &w));
    }
}

#[test]
fn pad_to_is_idempotent() {
    let mut ser = Serializer::new(Vec::new(), Endianness::Little);
    ser.serialize(&Variant::Byte(1)).unwrap();
    ser.pad_to(8);
    let len_once = ser.buf.len();
    assert_eq!(len_once, 8);
    ser.pad_to(8);
    assert_eq!(ser.buf.len(), len_once, "second pad writes nothing");
}

#[test]
fn array_length_field_is_exact() {
    // array of u64: 4-byte length, then pad to 8 before elements,
    // even when the array is empty.
    let empty = Variant::Array { element_signature: b"t".to_vec(), elements: vec![] };
    let mut ser = Serializer::new(Vec::new(), Endianness::Little);
    ser.serialize(&empty).unwrap();
    assert_eq!(ser.buf, vec![0, 0, 0, 0, 0, 0, 0, 0], "length 0 then pad to 8");

    let one = Variant::Array {
        element_signature: b"t".to_vec(),
        elements: vec![Variant::U64(0x0102_0304_0506_0708)],
    };
    let mut ser = Serializer::new(Vec::new(), Endianness::Little);
    ser.serialize(&one).unwrap();
    assert_eq!(&ser.buf[0..4], &[8, 0, 0, 0], "length excludes pre-element padding");
    assert_eq!(ser.buf.len(), 16);

    let three = Variant::Array {
        element_signature: b"t".to_vec(),
        elements: vec![Variant::U64(1), Variant::U64(2), Variant::U64(3)],
    };
    let mut ser = Serializer::new(Vec::new(), Endianness::Little);
    ser.serialize(&three).unwrap();
    assert_eq!(&ser.buf[0..4], &[24, 0, 0, 0]);
    assert_eq!(ser.buf.len(), 32);
}

#[test]
fn string_and_signature_layouts_differ() {
    // The same text as a string: 4-byte length, bytes, NUL.
    let mut ser = Serializer::new(Vec::new(), Endianness::Little);
    ser.serialize(&Variant::Str("ab".to_owned())).unwrap();
    assert_eq!(ser.buf, vec![2, 0, 0, 0, b'a', b'b', 0]);

    // As a signature: 1-byte length, bytes, NUL, no alignment.
    let mut ser = Serializer::new(Vec::new(), Endianness::Little);
    ser.serialize(&Variant::Signature(b"ab".to_vec())).unwrap();
    // "ab" happens to be two valid type codes (array needs an element
    // type, so use "ay" which is one complete type)
    assert_eq!(ser.buf, vec![2, b'a', b'b', 0]);
}

#[test]
fn boolean_is_a_padded_word() {
    let mut ser = Serializer::new(Vec::new(), Endianness::Little);
    ser.serialize(&Variant::Byte(7)).unwrap();
    ser.serialize(&Variant::Boolean(true)).unwrap();
    assert_eq!(ser.buf, vec![7, 0, 0, 0, 1, 0, 0, 0], "bool pads to 4 and takes 4 bytes");
}

#[test]
fn big_endian_layout() {
    let mut ser = Serializer::new(Vec::new(), Endianness::Big);
    ser.serialize(&Variant::U32(0x0102_0304)).unwrap();
    assert_eq!(ser.buf, vec![1, 2, 3, 4]);
    let mut ser = Serializer::new(Vec::new(), Endianness::Little);
    ser.serialize(&Variant::U32(0x0102_0304)).unwrap();
    assert_eq!(ser.buf, vec![4, 3, 2, 1]);
}

#[test]
fn truncated_buffers_are_rejected() {
    let v = Variant::Str("hello".to_owned());
    let mut ser = Serializer::new(Vec::new(), Endianness::Little);
    ser.serialize(&v).unwrap();
    let data = ser.buf;
    let sig = v.signature();
    for cut in 0..data.len() {
        let short: Vec<u8> = data[0..cut].to_vec();
        assert!(decode(&short, Endianness::Little, 0, &sig, 0).is_err());
    }
}

#[test]
fn invalid_utf8_is_rejected() {
    // length 2, bytes [0xFF, 0xFE], NUL: not UTF-8
    let data = vec![2u8, 0, 0, 0, 0xFF, 0xFE, 0];
    let sig = b"s".to_vec();
    assert_eq!(
        decode(&data, Endianness::Little, 0, &sig, 0).unwrap_err(),
        DecodeError::InvalidUtf8
    );
}

#[test]
fn non_zero_terminator_is_rejected() {
    let data = vec![2u8, 0, 0, 0, b'a', b'b', 9];
    let sig = b"s".to_vec();
    assert_eq!(
        decode(&data, Endianness::Little, 0, &sig, 0).unwrap_err(),
        DecodeError::NonZeroTerminator
    );
}

#[test]
fn bad_boolean_word_is_rejected() {
    let data = vec![2u8, 0, 0, 0];
    let sig = b"b".to_vec();
    assert_eq!(
        decode(&data, Endianness::Little, 0, &sig, 0).unwrap_err(),
        DecodeError::InvalidBoolean
    );
}

#[test]
fn bad_object_path_is_rejected() {
    let data = vec![2u8, 0, 0, 0, b'a', b'b', 0];
    let sig = b"o".to_vec();
    assert!(decode(&data, Endianness::Little, 0, &sig, 0).is_err());
}

#[test]
fn array_length_overrun_is_rejected() {
    // array of u32 declaring 3 bytes: element decoding cannot land on it
    let data = vec![3u8, 0, 0, 0, 1, 0, 0, 0];
    let sig = b"au".to_vec();
    assert!(decode(&data, Endianness::Little, 0, &sig, 0).is_err());
}

#[test]
fn fuzzed_prefixes_never_panic() {
    // decoding arbitrary prefixes of a real message reports errors, never
    // crashes
    let v = Variant::Tuple {
        elements: vec![
            Variant::Str("x".to_owned()),
            Variant::Array {
                element_signature: b"q".to_vec(),
                elements: vec![Variant::U16(1), Variant::U16(2)],
            },
        ],
    };
    let mut ser = Serializer::new(Vec::new(), Endianness::Little);
    ser.serialize(&v).unwrap();
    let mut data = ser.buf;
    let sig = v.signature();
    for i in 0..data.len() {
        data[i] ^= 0x5A;
        let _ = decode(&data, Endianness::Little, 0, &sig, 0);
        data[i] ^= 0x5A;
    }
}

#[test]
fn serial_wraparound() {
    assert_eq!(dbus_pure::client::next_serial(0), 1);
    assert_eq!(dbus_pure::client::next_serial(1), 2);
    assert_eq!(dbus_pure::client::next_serial(u32::MAX - 1), u32::MAX);
    assert_eq!(dbus_pure::client::next_serial(u32::MAX), 1, "wraps to 1, never 0");
}
