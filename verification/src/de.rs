//! The deserializer: the exact inverse of the serializer. `dec` is the
//! mathematical statement of what one value read from a buffer is;
//! `decode` computes exactly `dec` and never panics on malformed input.
use vstd::prelude::*;

use crate::Endianness;
use crate::val::{
    Val, Variant, align_of_code, align_code, is_basic_code, is_path_char, type_end, struct_end,
    types_to_end, valid_path, lemma_type_end_bounds, lemma_struct_end_bounds, view_list,
    lemma_view_list, T_BYTE, T_BOOL, T_I16, T_U16, T_I32, T_U32, T_I64, T_U64, T_F64, T_STR,
    T_PATH, T_SIG, T_FD, T_ARR, T_VAR, T_SOPEN, T_SCLOSE, T_DOPEN, T_DCLOSE,
};
use crate::ser::pad_len;
use crate::wire::{
    u16_val, u32_val, u64_val, i16_of_pat, i32_of_pat, i64_of_pat, read_u16, read_u32, read_u64,
    from_i16_pat, from_i32_pat, from_i64_pat, copy_range,
};

verus! {

/// An error from decoding wire bytes. Every malformed input is reported
/// through one of these; decoding never panics.
#[derive(Clone, Copy, Debug, PartialEq, Eq, Structural)]
pub enum DecodeError {
    /// The buffer ends before the value does.
    EndOfData,
    /// String contents are not valid UTF-8.
    InvalidUtf8,
    /// The byte after a string body is not NUL.
    NonZeroTerminator,
    /// A type signature breaks the signature grammar.
    InvalidSignature,
    /// An object path breaks the object-path grammar.
    InvalidObjectPath,
    /// Element decoding does not land exactly on the declared array end.
    ArrayLengthMismatch,
    /// A boolean wire word is neither 0 nor 1.
    InvalidBoolean,
}

/// The value read from `data` at `pos` for the single complete type at
/// `si` in `sig`, with the positions after it, or nothing if the bytes are
/// malformed.
pub open spec fn dec(data: Seq<u8>, e: Endianness, pos: int, sig: Seq<u8>, si: int) -> Option<
    (Val, int, int),
>
    decreases data.len() - pos, sig.len() - si, 0int,
{
    if si < 0 || si >= sig.len() || pos < 0 || pos > data.len() {
        None
    } else {
        let c = sig[si];
        if c == T_BYTE {
            if pos + 1 <= data.len() {
                Some((Val::Byte(data[pos]), pos + 1, si + 1))
            } else {
                None
            }
        } else if c == T_BOOL {
            let p = pos + pad_len(pos, 4);
            if p + 4 <= data.len() {
                let x = u32_val(e, data.subrange(p, p + 4));
                if x == 0 {
                    Some((Val::Bool(false), p + 4, si + 1))
                } else if x == 1 {
                    Some((Val::Bool(true), p + 4, si + 1))
                } else {
                    None
                }
            } else {
                None
            }
        } else if c == T_I16 {
            let p = pos + pad_len(pos, 2);
            if p + 2 <= data.len() {
                Some((Val::I16(i16_of_pat(u16_val(e, data.subrange(p, p + 2)))), p + 2, si + 1))
            } else {
                None
            }
        } else if c == T_U16 {
            let p = pos + pad_len(pos, 2);
            if p + 2 <= data.len() {
                Some((Val::U16(u16_val(e, data.subrange(p, p + 2))), p + 2, si + 1))
            } else {
                None
            }
        } else if c == T_I32 {
            let p = pos + pad_len(pos, 4);
            if p + 4 <= data.len() {
                Some((Val::I32(i32_of_pat(u32_val(e, data.subrange(p, p + 4)))), p + 4, si + 1))
            } else {
                None
            }
        } else if c == T_U32 {
            let p = pos + pad_len(pos, 4);
            if p + 4 <= data.len() {
                Some((Val::U32(u32_val(e, data.subrange(p, p + 4))), p + 4, si + 1))
            } else {
                None
            }
        } else if c == T_FD {
            let p = pos + pad_len(pos, 4);
            if p + 4 <= data.len() {
                Some((Val::Fd(u32_val(e, data.subrange(p, p + 4))), p + 4, si + 1))
            } else {
                None
            }
        } else if c == T_I64 {
            let p = pos + pad_len(pos, 8);
            if p + 8 <= data.len() {
                Some((Val::I64(i64_of_pat(u64_val(e, data.subrange(p, p + 8)))), p + 8, si + 1))
            } else {
                None
            }
        } else if c == T_U64 {
            let p = pos + pad_len(pos, 8);
            if p + 8 <= data.len() {
                Some((Val::U64(u64_val(e, data.subrange(p, p + 8))), p + 8, si + 1))
            } else {
                None
            }
        } else if c == T_F64 {
            let p = pos + pad_len(pos, 8);
            if p + 8 <= data.len() {
                Some((Val::F64Bits(u64_val(e, data.subrange(p, p + 8))), p + 8, si + 1))
            } else {
                None
            }
        } else if c == T_STR {
            let p = pos + pad_len(pos, 4);
            if p + 4 <= data.len() {
                let l = u32_val(e, data.subrange(p, p + 4)) as int;
                let q = p + 4;
                if q + l + 1 <= data.len() {
                    let bytes = data.subrange(q, q + l);
                    if !vstd::utf8::valid_utf8(bytes) {
                        None
                    } else if data[q + l] != 0 {
                        None
                    } else {
                        Some((Val::Str(vstd::utf8::decode_utf8(bytes)), q + l + 1, si + 1))
                    }
                } else {
                    None
                }
            } else {
                None
            }
        } else if c == T_PATH {
            let p = pos + pad_len(pos, 4);
            if p + 4 <= data.len() {
                let l = u32_val(e, data.subrange(p, p + 4)) as int;
                let q = p + 4;
                if q + l + 1 <= data.len() {
                    let bytes = data.subrange(q, q + l);
                    if !valid_path(bytes) {
                        None
                    } else if data[q + l] != 0 {
                        None
                    } else {
                        Some((Val::Path(bytes), q + l + 1, si + 1))
                    }
                } else {
                    None
                }
            } else {
                None
            }
        } else if c == T_SIG {
            if pos + 1 <= data.len() {
                let l = data[pos] as int;
                let q = pos + 1;
                if q + l + 1 <= data.len() {
                    let bytes = data.subrange(q, q + l);
                    if !types_to_end(bytes, 0) {
                        None
                    } else if data[q + l] != 0 {
                        None
                    } else {
                        Some((Val::Sig(bytes), q + l + 1, si + 1))
                    }
                } else {
                    None
                }
            } else {
                None
            }
        } else if c == T_ARR {
            let te = type_end(sig, si + 1);
            if te < 0 {
                None
            } else {
                let p = pos + pad_len(pos, 4);
                if p + 4 <= data.len() {
                    let l = u32_val(e, data.subrange(p, p + 4)) as int;
                    let al = align_of_code(sig[si + 1]);
                    let p2 = p + 4 + pad_len(p + 4, al);
                    let end = p2 + l;
                    if end <= data.len() && p2 <= data.len() {
                        match dec_elems(data, e, p2, end, sig, si + 1) {
                            Some((vs, _pf)) => Some(
                                (Val::Arr { esig: sig.subrange(si + 1, te), elems: vs }, end, te),
                            ),
                            None => None,
                        }
                    } else {
                        None
                    }
                } else {
                    None
                }
            }
        } else if c == T_SOPEN {
            let p = pos + pad_len(pos, 8);
            if p > data.len() {
                None
            } else {
                match dec_fields(data, e, p, sig, si + 1) {
                    Some((vs, pf, sf)) => {
                        if vs.len() >= 1 {
                            Some((Val::Struct { fields: vs }, pf, sf))
                        } else {
                            None
                        }
                    },
                    None => None,
                }
            }
        } else if c == T_DOPEN {
            let p = pos + pad_len(pos, 8);
            if p > data.len() {
                None
            } else if si + 1 < sig.len() && is_basic_code(sig[si + 1]) {
                match dec(data, e, p, sig, si + 1) {
                    Some((kv, kp, ks)) => {
                        if kp < p || kp > data.len() || ks <= si || ks > sig.len() {
                            None
                        } else {
                            match dec(data, e, kp, sig, ks) {
                                Some((vv, vp, vsi)) => {
                                    if vsi < sig.len() && sig[vsi] == T_DCLOSE {
                                        Some(
                                            (
                                                Val::Dict {
                                                    key: Box::new(kv),
                                                    val: Box::new(vv),
                                                },
                                                vp,
                                                vsi + 1,
                                            ),
                                        )
                                    } else {
                                        None
                                    }
                                },
                                None => None,
                            }
                        }
                    },
                    None => None,
                }
            } else {
                None
            }
        } else if c == T_VAR {
            if pos + 1 <= data.len() {
                let l = data[pos] as int;
                let q = pos + 1;
                if q + l + 1 <= data.len() {
                    let g = data.subrange(q, q + l);
                    if data[q + l] != 0 {
                        None
                    } else if !(g.len() >= 1 && type_end(g, 0) == g.len()) {
                        None
                    } else {
                        match dec(data, e, q + l + 1, g, 0) {
                            Some((iv, ip, _isk)) => Some(
                                (Val::Var { inner: Box::new(iv) }, ip, si + 1),
                            ),
                            None => None,
                        }
                    }
                } else {
                    None
                }
            } else {
                None
            }
        } else {
            None
        }
    }
}

/// The elements read from `data` between `pos` and exactly `end`, each of
/// the single complete type at `si`.
pub open spec fn dec_elems(
    data: Seq<u8>,
    e: Endianness,
    pos: int,
    end: int,
    sig: Seq<u8>,
    si: int,
) -> Option<(Seq<Val>, int)>
    decreases data.len() - pos, sig.len() - si, 1int,
{
    if pos == end {
        Some((Seq::empty(), pos))
    } else if pos < 0 || pos > end || end > data.len() {
        None
    } else {
        match dec(data, e, pos, sig, si) {
            Some((v, p2, _s2)) => {
                if p2 <= pos || p2 > end {
                    None
                } else {
                    match dec_elems(data, e, p2, end, sig, si) {
                        Some((vs, pf)) => Some((seq![v] + vs, pf)),
                        None => None,
                    }
                }
            },
            None => None,
        }
    }
}

/// The struct fields read from `data` at `pos` for the types at `si` up
/// to the closing parenthesis, which is consumed.
pub open spec fn dec_fields(data: Seq<u8>, e: Endianness, pos: int, sig: Seq<u8>, si: int) -> Option<
    (Seq<Val>, int, int),
>
    decreases data.len() - pos, sig.len() - si, 1int,
{
    if si < 0 || si >= sig.len() || pos < 0 || pos > data.len() {
        None
    } else if sig[si] == T_SCLOSE {
        Some((Seq::empty(), pos, si + 1))
    } else {
        match dec(data, e, pos, sig, si) {
            Some((v, p2, s2)) => {
                if p2 < pos || p2 > data.len() || s2 <= si || s2 > sig.len() {
                    None
                } else {
                    match dec_fields(data, e, p2, sig, s2) {
                        Some((vs, pf, sf)) => Some((seq![v] + vs, pf, sf)),
                        None => None,
                    }
                }
            },
            None => None,
        }
    }
}

/// Relies on std's `String::from_utf8`: it succeeds exactly on valid
/// UTF-8 input and decodes those bytes to their characters.
#[verifier::external_body]
fn bytes_to_string(v: Vec<u8>) -> (r: Option<String>)
    ensures
        r is Some <==> vstd::utf8::valid_utf8(v@),
        r is Some ==> r->Some_0@ == vstd::utf8::decode_utf8(v@),
{
    match std::string::String::from_utf8(v) {
        Ok(s) => Some(s),
        Err(_) => None,
    }
}

/// The padded position `pos + pad_len(pos, a)`, or nothing if it lies
/// beyond the end of the buffer.
fn skip_pad(dlen: usize, pos: usize, a: usize) -> (r: Option<usize>)
    requires
        1 <= a <= 8,
        pos <= dlen,
    ensures
        r is Some ==> r->Some_0 == pos + pad_len(pos as int, a as int) && pos <= r->Some_0
            <= dlen,
        r is None ==> pos + pad_len(pos as int, a as int) > dlen,
{
    let rem = pos % a;
    proof {
        if rem == 0 {
            vstd::arithmetic::div_mod::lemma_mod_self_0(a as int);
            assert(pad_len(pos as int, a as int) == 0);
        } else {
            vstd::arithmetic::div_mod::lemma_small_mod((a - rem) as nat, a as nat);
            assert(pad_len(pos as int, a as int) == a - rem);
        }
    }
    if rem == 0 {
        Some(pos)
    } else {
        let need = a - rem;
        if need <= dlen - pos {
            Some(pos + need)
        } else {
            None
        }
    }
}

/// Whether `c` is the type code of a basic type.
fn is_basic_x(c: u8) -> (r: bool)
    ensures
        r == is_basic_code(c),
{
    c == T_BYTE || c == T_BOOL || c == T_I16 || c == T_U16 || c == T_I32 || c == T_U32
        || c == T_I64 || c == T_U64 || c == T_F64 || c == T_STR || c == T_PATH || c == T_SIG
        || c == T_FD
}

/// End of the single complete type starting at `i`, or nothing where the
/// grammar is broken.
pub fn type_end_x(sig: &Vec<u8>, i: usize) -> (r: Option<usize>)
    ensures
        r is Some ==> type_end(sig@, i as int) == r->Some_0 && i < r->Some_0 <= sig@.len(),
        r is None ==> type_end(sig@, i as int) == -1,
    decreases sig@.len() - i, 0int,
{
    proof {
        lemma_type_end_bounds(sig@, i as int);
    }
    if i >= sig.len() {
        None
    } else {
        let c = sig[i];
        if is_basic_x(c) || c == T_VAR {
            Some(i + 1)
        } else if c == T_ARR {
            type_end_x(sig, i + 1)
        } else if c == T_SOPEN {
            struct_end_x(sig, i + 1)
        } else if c == T_DOPEN {
            if i + 1 < sig.len() && is_basic_x(sig[i + 1]) {
                match type_end_x(sig, i + 2) {
                    Some(ve) => {
                        if ve < sig.len() && sig[ve] == T_DCLOSE {
                            Some(ve + 1)
                        } else {
                            None
                        }
                    },
                    None => None,
                }
            } else {
                None
            }
        } else {
            None
        }
    }
}

/// End of the remainder of a struct signature starting at `i`, or nothing
/// where the grammar is broken.
fn struct_end_x(sig: &Vec<u8>, i: usize) -> (r: Option<usize>)
    ensures
        r is Some ==> struct_end(sig@, i as int) == r->Some_0 && i < r->Some_0 <= sig@.len(),
        r is None ==> struct_end(sig@, i as int) == -1,
    decreases sig@.len() - i, 1int,
{
    proof {
        lemma_struct_end_bounds(sig@, i as int);
    }
    if i >= sig.len() || sig[i] == T_SCLOSE {
        None
    } else {
        match type_end_x(sig, i) {
            Some(te) => {
                if te < sig.len() {
                    if sig[te] == T_SCLOSE {
                        Some(te + 1)
                    } else {
                        struct_end_x(sig, te)
                    }
                } else {
                    None
                }
            },
            None => None,
        }
    }
}

/// Decode one fixed-width value; computes exactly `dec` for these codes.
#[verifier::rlimit(100)]
fn decode_basic(data: &Vec<u8>, e: Endianness, pos: usize, sig: &Vec<u8>, si: usize) -> (r: Result<
    (Variant, usize, usize),
    DecodeError,
>)
    requires
        pos <= data@.len(),
        si < sig@.len(),
        sig@[si as int] == T_BOOL || sig@[si as int] == T_I16 || sig@[si as int] == T_U16
            || sig@[si as int] == T_I32 || sig@[si as int] == T_U32 || sig@[si as int] == T_I64
            || sig@[si as int] == T_U64 || sig@[si as int] == T_F64 || sig@[si as int] == T_FD,
    ensures
        r is Ok <==> dec(data@, e, pos as int, sig@, si as int) is Some,
        r is Ok ==> dec(data@, e, pos as int, sig@, si as int) == Some(
            (r->Ok_0.0@, r->Ok_0.1 as int, r->Ok_0.2 as int),
        ),
{
    let slen = sig.len();
    let c = sig[si];
    if c == T_BOOL {
        match skip_pad(data.len(), pos, 4) {
            Some(p) => {
                if data.len() - p < 4 {
                    Err(DecodeError::EndOfData)
                } else {
                    let x = read_u32(data, e, p);
                    if x == 0 {
                        Ok((Variant::Boolean(false), p + 4, si + 1))
                    } else if x == 1 {
                        Ok((Variant::Boolean(true), p + 4, si + 1))
                    } else {
                        Err(DecodeError::InvalidBoolean)
                    }
                }
            },
            None => Err(DecodeError::EndOfData),
        }
    } else if c == T_I16 || c == T_U16 {
        match skip_pad(data.len(), pos, 2) {
            Some(p) => {
                if data.len() - p < 2 {
                    Err(DecodeError::EndOfData)
                } else {
                    let x = read_u16(data, e, p);
                    if c == T_I16 {
                        Ok((Variant::I16(from_i16_pat(x)), p + 2, si + 1))
                    } else {
                        Ok((Variant::U16(x), p + 2, si + 1))
                    }
                }
            },
            None => Err(DecodeError::EndOfData),
        }
    } else if c == T_I32 || c == T_U32 || c == T_FD {
        match skip_pad(data.len(), pos, 4) {
            Some(p) => {
                if data.len() - p < 4 {
                    Err(DecodeError::EndOfData)
                } else {
                    let x = read_u32(data, e, p);
                    if c == T_I32 {
                        Ok((Variant::I32(from_i32_pat(x)), p + 4, si + 1))
                    } else if c == T_U32 {
                        Ok((Variant::U32(x), p + 4, si + 1))
                    } else {
                        Ok((Variant::UnixFd(x), p + 4, si + 1))
                    }
                }
            },
            None => Err(DecodeError::EndOfData),
        }
    } else {
        match skip_pad(data.len(), pos, 8) {
            Some(p) => {
                if data.len() - p < 8 {
                    Err(DecodeError::EndOfData)
                } else {
                    let x = read_u64(data, e, p);
                    if c == T_I64 {
                        Ok((Variant::I64(from_i64_pat(x)), p + 8, si + 1))
                    } else if c == T_U64 {
                        Ok((Variant::U64(x), p + 8, si + 1))
                    } else {
                        Ok((Variant::F64Bits(x), p + 8, si + 1))
                    }
                }
            },
            None => Err(DecodeError::EndOfData),
        }
    }
}

/// Decode one string, object-path, or signature value; computes exactly
/// `dec` for these codes.
#[verifier::rlimit(100)]
fn decode_text(data: &Vec<u8>, e: Endianness, pos: usize, sig: &Vec<u8>, si: usize) -> (r: Result<
    (Variant, usize, usize),
    DecodeError,
>)
    requires
        pos <= data@.len(),
        si < sig@.len(),
        sig@[si as int] == T_STR || sig@[si as int] == T_PATH || sig@[si as int] == T_SIG,
    ensures
        r is Ok <==> dec(data@, e, pos as int, sig@, si as int) is Some,
        r is Ok ==> dec(data@, e, pos as int, sig@, si as int) == Some(
            (r->Ok_0.0@, r->Ok_0.1 as int, r->Ok_0.2 as int),
        ),
{
    let slen = sig.len();
    let c = sig[si];
    if c == T_STR || c == T_PATH {
        match skip_pad(data.len(), pos, 4) {
            Some(p) => {
                if data.len() - p < 4 {
                    Err(DecodeError::EndOfData)
                } else {
                    let l32 = read_u32(data, e, p);
                    let l = l32 as usize;
                    let q = p + 4;
                    if l > data.len() - q {
                        Err(DecodeError::EndOfData)
                    } else if q + l == data.len() {
                        Err(DecodeError::EndOfData)
                    } else {
                        let bytes = copy_range(data, q, q + l);
                        if c == T_STR {
                            match bytes_to_string(bytes) {
                                Some(st) => {
                                    if data[q + l] != 0 {
                                        Err(DecodeError::NonZeroTerminator)
                                    } else {
                                        Ok((Variant::Str(st), q + l + 1, si + 1))
                                    }
                                },
                                None => Err(DecodeError::InvalidUtf8),
                            }
                        } else {
                            if !check_path(&bytes) {
                                Err(DecodeError::InvalidObjectPath)
                            } else if data[q + l] != 0 {
                                Err(DecodeError::NonZeroTerminator)
                            } else {
                                Ok((Variant::ObjectPath(bytes), q + l + 1, si + 1))
                            }
                        }
                    }
                }
            },
            None => Err(DecodeError::EndOfData),
        }
    } else {
        if data.len() - pos < 1 {
            Err(DecodeError::EndOfData)
        } else {
            let l = data[pos] as usize;
            let q = pos + 1;
            if l > data.len() - q {
                Err(DecodeError::EndOfData)
            } else if q + l == data.len() {
                Err(DecodeError::EndOfData)
            } else {
                let bytes = copy_range(data, q, q + l);
                if !check_sig_types(&bytes) {
                    Err(DecodeError::InvalidSignature)
                } else if data[q + l] != 0 {
                    Err(DecodeError::NonZeroTerminator)
                } else {
                    Ok((Variant::Signature(bytes), q + l + 1, si + 1))
                }
            }
        }
    }
}

/// Decode the single complete type at `si` of `sig` from `data` at `pos`.
/// Computes exactly `dec`: it returns a value precisely when the spec-level
/// decoding does, and then the same value and positions.
#[verifier::rlimit(100)]
pub fn decode(data: &Vec<u8>, e: Endianness, pos: usize, sig: &Vec<u8>, si: usize) -> (r: Result<
    (Variant, usize, usize),
    DecodeError,
>)
    ensures
        r is Ok <==> dec(data@, e, pos as int, sig@, si as int) is Some,
        r is Ok ==> dec(data@, e, pos as int, sig@, si as int) == Some(
            (r->Ok_0.0@, r->Ok_0.1 as int, r->Ok_0.2 as int),
        ),
    decreases data@.len() - pos, sig@.len() - si, 1int,
{
    let dlen = data.len();
    let slen = sig.len();
    if si >= slen {
        return Err(DecodeError::InvalidSignature);
    }
    if pos > dlen {
        return Err(DecodeError::EndOfData);
    }
    let c = sig[si];
    if c == T_BYTE {
        if dlen - pos < 1 {
            Err(DecodeError::EndOfData)
        } else {
            Ok((Variant::Byte(data[pos]), pos + 1, si + 1))
        }
    } else if c == T_BOOL || c == T_I16 || c == T_U16 || c == T_I32 || c == T_U32 || c == T_I64
        || c == T_U64 || c == T_F64 || c == T_FD {
        decode_basic(data, e, pos, sig, si)
    } else if c == T_STR || c == T_PATH || c == T_SIG {
        decode_text(data, e, pos, sig, si)
    } else if c == T_ARR {
        decode_arr(data, e, pos, sig, si)
    } else if c == T_SOPEN {
        decode_struct(data, e, pos, sig, si)
    } else if c == T_DOPEN {
        decode_dict(data, e, pos, sig, si)
    } else if c == T_VAR {
        decode_var(data, e, pos, sig, si)
    } else {
        Err(DecodeError::InvalidSignature)
    }
}

/// Decode one array value; computes exactly `dec` for arrays.
#[verifier::rlimit(100)]
fn decode_arr(data: &Vec<u8>, e: Endianness, pos: usize, sig: &Vec<u8>, si: usize) -> (r: Result<
    (Variant, usize, usize),
    DecodeError,
>)
    requires
        pos <= data@.len(),
        si < sig@.len(),
        sig@[si as int] == T_ARR,
    ensures
        r is Ok <==> dec(data@, e, pos as int, sig@, si as int) is Some,
        r is Ok ==> dec(data@, e, pos as int, sig@, si as int) == Some(
            (r->Ok_0.0@, r->Ok_0.1 as int, r->Ok_0.2 as int),
        ),
    decreases data@.len() - pos, sig@.len() - si, 0int,
{
    let dlen = data.len();
    let slen = sig.len();
        let te = match type_end_x(sig, si + 1) {
            Some(te) => te,
            None => {
                return Err(DecodeError::InvalidSignature);
            },
        };
        let p = match skip_pad(dlen, pos, 4) {
            Some(p) => p,
            None => {
                return Err(DecodeError::EndOfData);
            },
        };
        if dlen - p < 4 {
            return Err(DecodeError::EndOfData);
        }
        let l = read_u32(data, e, p) as usize;
        let al = align_code(sig[si + 1]);
        let p2 = match skip_pad(dlen, p + 4, al) {
            Some(p2) => p2,
            None => {
                return Err(DecodeError::EndOfData);
            },
        };
        if l > dlen - p2 {
            return Err(DecodeError::EndOfData);
        }
        let end = p2 + l;
        match decode_elems(data, e, p2, end, sig, si + 1) {
            Ok((vs, _pf)) => {
                let esig = copy_range(sig, si + 1, te);
                Ok((Variant::Array { element_signature: esig, elements: vs }, end, te))
            },
            Err(er) => Err(er),
        }
}

/// Decode one struct value; computes exactly `dec` for structs.
#[verifier::rlimit(100)]
fn decode_struct(data: &Vec<u8>, e: Endianness, pos: usize, sig: &Vec<u8>, si: usize) -> (r: Result<
    (Variant, usize, usize),
    DecodeError,
>)
    requires
        pos <= data@.len(),
        si < sig@.len(),
        sig@[si as int] == T_SOPEN,
    ensures
        r is Ok <==> dec(data@, e, pos as int, sig@, si as int) is Some,
        r is Ok ==> dec(data@, e, pos as int, sig@, si as int) == Some(
            (r->Ok_0.0@, r->Ok_0.1 as int, r->Ok_0.2 as int),
        ),
    decreases data@.len() - pos, sig@.len() - si, 0int,
{
    let dlen = data.len();
    let slen = sig.len();
        let p = match skip_pad(dlen, pos, 8) {
            Some(p) => p,
            None => {
                return Err(DecodeError::EndOfData);
            },
        };
        match decode_fields(data, e, p, sig, si + 1) {
            Ok((vs, pf, sf)) => {
                proof {
                    lemma_view_list(vs@);
                }
                if vs.len() == 0 {
                    Err(DecodeError::InvalidSignature)
                } else {
                    Ok((Variant::Tuple { elements: vs }, pf, sf))
                }
            },
            Err(er) => Err(er),
        }
}

/// Decode one dict entry; computes exactly `dec` for dict entries.
#[verifier::rlimit(100)]
fn decode_dict(data: &Vec<u8>, e: Endianness, pos: usize, sig: &Vec<u8>, si: usize) -> (r: Result<
    (Variant, usize, usize),
    DecodeError,
>)
    requires
        pos <= data@.len(),
        si < sig@.len(),
        sig@[si as int] == T_DOPEN,
    ensures
        r is Ok <==> dec(data@, e, pos as int, sig@, si as int) is Some,
        r is Ok ==> dec(data@, e, pos as int, sig@, si as int) == Some(
            (r->Ok_0.0@, r->Ok_0.1 as int, r->Ok_0.2 as int),
        ),
    decreases data@.len() - pos, sig@.len() - si, 0int,
{
    let dlen = data.len();
    let slen = sig.len();
        let p = match skip_pad(dlen, pos, 8) {
            Some(p) => p,
            None => {
                return Err(DecodeError::EndOfData);
            },
        };
        if !(si + 1 < slen && is_basic_x(sig[si + 1])) {
            return Err(DecodeError::InvalidSignature);
        }
        let (kv, kp, ks) = match decode(data, e, p, sig, si + 1) {
            Ok(t) => t,
            Err(er) => {
                return Err(er);
            },
        };
        if kp < p || kp > dlen || ks <= si || ks > slen {
            return Err(DecodeError::InvalidSignature);
        }
        let (vv, vp, vsi) = match decode(data, e, kp, sig, ks) {
            Ok(t) => t,
            Err(er) => {
                return Err(er);
            },
        };
        if vsi < slen && sig[vsi] == T_DCLOSE {
            Ok((Variant::DictEntry { key: Box::new(kv), value: Box::new(vv) }, vp, vsi + 1))
        } else {
            Err(DecodeError::InvalidSignature)
        }
}

/// Decode one self-describing variant value; computes exactly `dec` for it.
#[verifier::rlimit(100)]
fn decode_var(data: &Vec<u8>, e: Endianness, pos: usize, sig: &Vec<u8>, si: usize) -> (r: Result<
    (Variant, usize, usize),
    DecodeError,
>)
    requires
        pos <= data@.len(),
        si < sig@.len(),
        sig@[si as int] == T_VAR,
    ensures
        r is Ok <==> dec(data@, e, pos as int, sig@, si as int) is Some,
        r is Ok ==> dec(data@, e, pos as int, sig@, si as int) == Some(
            (r->Ok_0.0@, r->Ok_0.1 as int, r->Ok_0.2 as int),
        ),
    decreases data@.len() - pos, sig@.len() - si, 0int,
{
    let dlen = data.len();
    let slen = sig.len();
        if dlen - pos < 1 {
            return Err(DecodeError::EndOfData);
        }
        let l = data[pos] as usize;
        let q = pos + 1;
        if l > dlen - q {
            return Err(DecodeError::EndOfData);
        }
        if q + l == dlen {
            return Err(DecodeError::EndOfData);
        }
        let g = copy_range(data, q, q + l);
        if data[q + l] != 0 {
            return Err(DecodeError::NonZeroTerminator);
        }
        let single = match type_end_x(&g, 0) {
            Some(te) => g.len() >= 1 && te == g.len(),
            None => false,
        };
        if !single {
            return Err(DecodeError::InvalidSignature);
        }
        match decode(data, e, q + l + 1, &g, 0) {
            Ok((iv, ip, _isk)) => Ok((Variant::VariantValue(Box::new(iv)), ip, si + 1)),
            Err(er) => Err(er),
        }
}

/// Decode elements of the single type at `si` from `pos` to exactly `end`.
#[verifier::rlimit(100)]
fn decode_elems(data: &Vec<u8>, e: Endianness, pos: usize, end: usize, sig: &Vec<u8>, si: usize)
    -> (r: Result<(Vec<Variant>, usize), DecodeError>)
    ensures
        r is Ok <==> dec_elems(data@, e, pos as int, end as int, sig@, si as int) is Some,
        r is Ok ==> dec_elems(data@, e, pos as int, end as int, sig@, si as int) == Some(
            (view_list(r->Ok_0.0@), r->Ok_0.1 as int),
        ),
    decreases data@.len() - pos, sig@.len() - si, 2int,
{
    let dlen = data.len();
    if pos == end {
        let vs: Vec<Variant> = Vec::new();
        proof {
            assert(view_list(vs@) =~= Seq::<Val>::empty());
        }
        return Ok((vs, pos));
    }
    if pos > end || end > dlen {
        return Err(DecodeError::ArrayLengthMismatch);
    }
    let (v, p2, _s2) = match decode(data, e, pos, sig, si) {
        Ok(t) => t,
        Err(er) => {
            return Err(er);
        },
    };
    if p2 <= pos || p2 > end {
        return Err(DecodeError::ArrayLengthMismatch);
    }
    match decode_elems(data, e, p2, end, sig, si) {
        Ok((rest, pf)) => {
            let ghost rest0 = rest@;
            let mut vs = rest;
            vs.insert(0, v);
            proof {
                assert(vs@.subrange(1, vs@.len() as int) =~= rest0);
                assert(view_list(vs@) == seq![vs@[0]@] + view_list(
                    vs@.subrange(1, vs@.len() as int),
                ));
            }
            Ok((vs, pf))
        },
        Err(er) => Err(er),
    }
}

/// Decode struct fields for the types at `si` up to the closing
/// parenthesis.
#[verifier::rlimit(100)]
fn decode_fields(data: &Vec<u8>, e: Endianness, pos: usize, sig: &Vec<u8>, si: usize) -> (r: Result<
    (Vec<Variant>, usize, usize),
    DecodeError,
>)
    ensures
        r is Ok <==> dec_fields(data@, e, pos as int, sig@, si as int) is Some,
        r is Ok ==> dec_fields(data@, e, pos as int, sig@, si as int) == Some(
            (view_list(r->Ok_0.0@), r->Ok_0.1 as int, r->Ok_0.2 as int),
        ),
    decreases data@.len() - pos, sig@.len() - si, 2int,
{
    let dlen = data.len();
    let slen = sig.len();
    if si >= slen {
        return Err(DecodeError::InvalidSignature);
    }
    if pos > dlen {
        return Err(DecodeError::EndOfData);
    }
    if sig[si] == T_SCLOSE {
        let vs: Vec<Variant> = Vec::new();
        proof {
            assert(view_list(vs@) =~= Seq::<Val>::empty());
        }
        return Ok((vs, pos, si + 1));
    }
    let (v, p2, s2) = match decode(data, e, pos, sig, si) {
        Ok(t) => t,
        Err(er) => {
            return Err(er);
        },
    };
    if p2 < pos || p2 > dlen || s2 <= si || s2 > slen {
        return Err(DecodeError::InvalidSignature);
    }
    match decode_fields(data, e, p2, sig, s2) {
        Ok((rest, pf, sf)) => {
            let ghost rest0 = rest@;
            let mut vs = rest;
            vs.insert(0, v);
            proof {
                assert(vs@.subrange(1, vs@.len() as int) =~= rest0);
                assert(view_list(vs@) == seq![vs@[0]@] + view_list(
                    vs@.subrange(1, vs@.len() as int),
                ));
            }
            Ok((vs, pf, sf))
        },
        Err(er) => Err(er),
    }
}

/// Whether the whole of `g` is a sequence of complete types.
pub fn check_sig_types(g: &Vec<u8>) -> (r: bool)
    ensures
        r == types_to_end(g@, 0),
{
    let mut i: usize = 0;
    while i < g.len()
        invariant
            i <= g@.len(),
            types_to_end(g@, 0) == types_to_end(g@, i as int),
        decreases g@.len() - i,
    {
        match type_end_x(g, i) {
            Some(te) => {
                i = te;
            },
            None => {
                return false;
            },
        }
    }
    true
}

/// Whether `p` obeys the object-path grammar.
pub fn check_path(p: &Vec<u8>) -> (r: bool)
    ensures
        r == valid_path(p@),
{
    if p.len() < 1 {
        return false;
    }
    if p.len() as u64 >= 0x1_0000_0000u64 {
        return false;
    }
    if p[0] != 47 {
        return false;
    }
    if p.len() > 1 && p[p.len() - 1] == 47 {
        return false;
    }
    let mut i: usize = 1;
    while i < p.len()
        invariant
            1 <= i <= p@.len(),
            forall|j: int|
                1 <= j < i ==> (is_path_char(#[trigger] p@[j]) || (p@[j] == 47 && p@[j - 1]
                    != 47)),
        decreases p@.len() - i,
    {
        let c = p[i];
        let ok = (65 <= c && c <= 90) || (97 <= c && c <= 122) || (48 <= c && c <= 57) || c == 95
            || (c == 47 && p[i - 1] != 47);
        if !ok {
            return false;
        }
        i = i + 1;
    }
    true
}

} // verus!
