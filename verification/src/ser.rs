//! The serializer: appends a typed value to a growing byte buffer following
//! the D-Bus alignment rules. `enc` is the mathematical statement of the
//! whole wire encoding; `Serializer::serialize` produces exactly those bytes.
use vstd::prelude::*;

use crate::Endianness;
use crate::val::{
    Val, Variant, align_of_code, align_code, sig_of, sigs_of, valid, valid_elems, valid_list,
    valid_path, valid_sig_string, view_list, lemma_view_list, lemma_valid_elems_index,
    lemma_valid_list_index, type_end,
};
use crate::wire::{
    u16_bytes, u32_bytes, u64_bytes, i16_pat, i32_pat, i64_pat, push_u16, push_u32, push_u64,
    write_u32_at, to_i16_pat, to_i32_pat, to_i64_pat, lemma_u16_round_trip, lemma_u32_round_trip,
    lemma_u64_round_trip,
};

verus! {

/// Bytes of zero padding needed to advance `pos` to a multiple of `a`.
pub open spec fn pad_len(pos: int, a: int) -> int {
    (a - pos % a) % a
}

/// A run of zero bytes.
pub open spec fn zeros(n: int) -> Seq<u8> {
    Seq::new(n as nat, |i: int| 0u8)
}

/// The padding emitted before a value of alignment `a` at position `pos`.
pub open spec fn pad(pos: int, a: int) -> Seq<u8> {
    zeros(pad_len(pos, a))
}

/// A length truncated to the 32-bit wire width (the identity whenever the
/// value fits, which `fits` guarantees).
pub open spec fn as_u32(n: int) -> u32 {
    (n % 0x1_0000_0000) as u32
}

/// A length truncated to the 8-bit wire width.
pub open spec fn as_u8(n: int) -> u8 {
    (n % 0x100) as u8
}

/// The exact bytes appended when encoding `v` in byte order `e` at offset
/// `pos` from the start of the message, including any leading padding.
pub open spec fn enc(v: Val, e: Endianness, pos: int) -> Seq<u8>
    decreases v,
{
    match v {
        Val::Byte(x) => seq![x],
        Val::Bool(b) => pad(pos, 4) + u32_bytes(
            e,
            if b {
                1
            } else {
                0
            },
        ),
        Val::I16(x) => pad(pos, 2) + u16_bytes(e, i16_pat(x)),
        Val::U16(x) => pad(pos, 2) + u16_bytes(e, x),
        Val::I32(x) => pad(pos, 4) + u32_bytes(e, i32_pat(x)),
        Val::U32(x) => pad(pos, 4) + u32_bytes(e, x),
        Val::I64(x) => pad(pos, 8) + u64_bytes(e, i64_pat(x)),
        Val::U64(x) => pad(pos, 8) + u64_bytes(e, x),
        Val::F64Bits(x) => pad(pos, 8) + u64_bytes(e, x),
        Val::Str(s) => {
            let b = vstd::utf8::encode_utf8(s);
            pad(pos, 4) + u32_bytes(e, as_u32(b.len() as int)) + b + seq![0u8]
        },
        Val::Path(p) => pad(pos, 4) + u32_bytes(e, as_u32(p.len() as int)) + p + seq![0u8],
        Val::Sig(g) => seq![as_u8(g.len() as int)] + g + seq![0u8],
        Val::Arr { esig, elems } => {
            let p1 = pos + pad_len(pos, 4) + 4;
            let a = align_of_code(esig[0]);
            let p2 = p1 + pad_len(p1, a);
            let body = enc_list(elems, e, p2);
            pad(pos, 4) + u32_bytes(e, as_u32(body.len() as int)) + pad(p1, a) + body
        },
        Val::Struct { fields } => pad(pos, 8) + enc_list(fields, e, pos + pad_len(pos, 8)),
        Val::Dict { key, val } => {
            let p1 = pos + pad_len(pos, 8);
            let kb = enc(*key, e, p1);
            pad(pos, 8) + kb + enc(*val, e, p1 + kb.len())
        },
        Val::Var { inner } => {
            let g = sig_of(*inner);
            seq![as_u8(g.len() as int)] + g + seq![0u8] + enc(*inner, e, pos + 2 + g.len())
        },
        Val::Fd(x) => pad(pos, 4) + u32_bytes(e, x),
    }
}

/// The array value whose element signature and elements a serializer was
/// handed, as one model value.
pub open spec fn arr_val(esig: Seq<u8>, elements: Seq<Variant>) -> Val {
    Val::Arr { esig, elems: view_list(elements) }
}

/// The concatenated encodings of a sequence of values laid out one after
/// the other starting at `pos`.
pub open spec fn enc_list(vs: Seq<Val>, e: Endianness, pos: int) -> Seq<u8>
    decreases vs,
{
    if vs.len() == 0 {
        Seq::empty()
    } else {
        let b = enc(vs[0], e, pos);
        b + enc_list(vs.subrange(1, vs.len() as int), e, pos + b.len())
    }
}

/// True when every length that the encoding of `v` at `pos` stores in a
/// fixed-width wire field actually fits that field.
pub open spec fn fits(v: Val, e: Endianness, pos: int) -> bool
    decreases v,
{
    match v {
        Val::Arr { esig, elems } => {
            let p1 = pos + pad_len(pos, 4) + 4;
            let a = align_of_code(esig[0]);
            let p2 = p1 + pad_len(p1, a);
            enc_list(elems, e, p2).len() < 0x1_0000_0000 && fits_list(elems, e, p2)
        },
        Val::Struct { fields } => fits_list(fields, e, pos + pad_len(pos, 8)),
        Val::Dict { key, val } => {
            let p1 = pos + pad_len(pos, 8);
            fits(*key, e, p1) && fits(*val, e, p1 + enc(*key, e, p1).len())
        },
        Val::Var { inner } => fits(*inner, e, pos + 2 + sig_of(*inner).len()),
        _ => true,
    }
}

/// `fits` for each value of a sequence laid out starting at `pos`.
pub open spec fn fits_list(vs: Seq<Val>, e: Endianness, pos: int) -> bool
    decreases vs,
{
    if vs.len() == 0 {
        true
    } else {
        fits(vs[0], e, pos) && fits_list(
            vs.subrange(1, vs.len() as int),
            e,
            pos + enc(vs[0], e, pos).len(),
        )
    }
}

/// Appending one value to a layout appends its encoding at the position
/// after everything before it.
pub proof fn lemma_enc_list_push(vs: Seq<Val>, x: Val, e: Endianness, pos: int)
    ensures
        enc_list(vs.push(x), e, pos) == enc_list(vs, e, pos) + enc(
            x,
            e,
            pos + enc_list(vs, e, pos).len(),
        ),
        fits_list(vs.push(x), e, pos) == (fits_list(vs, e, pos) && fits(
            x,
            e,
            pos + enc_list(vs, e, pos).len(),
        )),
    decreases vs.len(),
{
    reveal_with_fuel(enc_list, 2);
    reveal_with_fuel(fits_list, 2);
    if vs.len() == 0 {
        assert(vs.push(x)[0] == x);
        assert(vs.push(x).subrange(1, 1) =~= Seq::<Val>::empty());
        assert(enc_list(vs.push(x), e, pos) =~= enc_list(vs, e, pos) + enc(
            x,
            e,
            pos + enc_list(vs, e, pos).len(),
        ));
    } else {
        let tail = vs.subrange(1, vs.len() as int);
        let b = enc(vs[0], e, pos);
        lemma_enc_list_push(tail, x, e, pos + b.len());
        assert(vs.push(x)[0] == vs[0]);
        assert(vs.push(x).subrange(1, vs.len() as int + 1) =~= tail.push(x));
        assert(enc_list(vs.push(x), e, pos) == b + enc_list(tail.push(x), e, pos + b.len()));
        assert(enc_list(vs.push(x), e, pos) =~= enc_list(vs, e, pos) + enc(
            x,
            e,
            pos + enc_list(vs, e, pos).len(),
        ));
    }
}

/// A layout splits at any index: the values before it, then the values
/// after it starting where the prefix ended.
pub proof fn lemma_enc_list_split(vs: Seq<Val>, e: Endianness, pos: int, i: int)
    requires
        0 <= i <= vs.len(),
    ensures
        enc_list(vs, e, pos) == enc_list(vs.take(i), e, pos) + enc_list(
            vs.skip(i),
            e,
            pos + enc_list(vs.take(i), e, pos).len(),
        ),
        fits_list(vs, e, pos) == (fits_list(vs.take(i), e, pos) && fits_list(
            vs.skip(i),
            e,
            pos + enc_list(vs.take(i), e, pos).len(),
        )),
    decreases i,
{
    if i == 0 {
        assert(vs.take(0) =~= Seq::<Val>::empty());
        assert(vs.skip(0) =~= vs);
    } else {
        lemma_enc_list_split(vs, e, pos, i - 1);
        lemma_enc_list_push(vs.take(i - 1), vs[i - 1], e, pos);
        assert(vs.take(i) =~= vs.take(i - 1).push(vs[i - 1]));
        let q = pos + enc_list(vs.take(i - 1), e, pos).len();
        let sk = vs.skip(i - 1);
        assert(sk.len() == vs.len() - i + 1);
        assert(sk[0] == vs[i - 1]);
        assert(sk.subrange(1, sk.len() as int) =~= vs.skip(i));
        assert(enc_list(sk, e, q) == enc(vs[i - 1], e, q) + enc_list(
            vs.skip(i),
            e,
            q + enc(vs[i - 1], e, q).len(),
        ));
        assert(enc_list(vs, e, pos) =~= enc_list(vs.take(i), e, pos) + enc_list(
            vs.skip(i),
            e,
            pos + enc_list(vs.take(i), e, pos).len(),
        ));
    }
}

/// Padding to an alignment is idempotent: once a position is padded,
/// padding it again adds nothing.
pub proof fn lemma_pad_idempotent(pos: int, a: int)
    requires
        0 < a,
        0 <= pos,
    ensures
        pad_len(pos + pad_len(pos, a), a) == 0,
        pad(pos + pad_len(pos, a), a) == Seq::<u8>::empty(),
{
    let r = pos % a;
    vstd::arithmetic::div_mod::lemma_mod_self_0(a);
    if r == 0 {
        assert(pad_len(pos, a) == 0);
    } else {
        vstd::arithmetic::div_mod::lemma_small_mod((a - r) as nat, a as nat);
        assert(pad_len(pos, a) == a - r);
        vstd::arithmetic::div_mod::lemma_fundamental_div_mod(pos, a);
        let q = pos / a;
        assert((q + 1) * a == q * a + a) by (nonlinear_arith);
        assert(pos + (a - r) == (q + 1) * a);
        vstd::arithmetic::div_mod::lemma_mod_multiples_basic(q + 1, a);
    }
    assert(pad(pos + pad_len(pos, a), a) =~= Seq::<u8>::empty());
}

/// A prefix of a prefix is a prefix.
pub proof fn lemma_prefix_trans(a: Seq<u8>, b: Seq<u8>, c: Seq<u8>)
    requires
        a.is_prefix_of(b),
        b.is_prefix_of(c),
    ensures
        a.is_prefix_of(c),
{
    assert(a =~= c.subrange(0, a.len() as int));
}

/// An error from serializing a value into the wire format.
#[derive(Debug)]
pub enum SerializeError {
    /// A length does not fit the fixed-width wire field that carries it.
    ExceedsNumericLimits,
}

/// Appends typed values to a byte buffer, padding relative to the position
/// where the current message started.
pub struct Serializer {
    /// The buffer; the message being written is `buf[start..]`.
    pub buf: Vec<u8>,
    /// Offset in `buf` where the current message starts; all alignment is
    /// relative to this point.
    pub start: usize,
    /// Byte order of the message being written.
    pub endianness: Endianness,
}

impl Serializer {
    /// The message start lies within the buffer.
    pub open spec fn wf(self) -> bool {
        self.start <= self.buf@.len()
    }

    /// Write position relative to the start of the current message.
    pub open spec fn pos(self) -> int {
        self.buf@.len() - self.start
    }

    /// A serializer writing to `buf` in byte order `endianness`; the
    /// message starts at the buffer's current end.
    pub fn new(buf: Vec<u8>, endianness: Endianness) -> (s: Serializer)
        ensures
            s.wf(),
            s.buf@ == buf@,
            s.start == buf@.len(),
            s.endianness == endianness,
            s.pos() == 0,
    {
        let start = buf.len();
        Serializer { buf, start, endianness }
    }

    /// Advance the write position to the next multiple of `alignment`
    /// relative to the message start, filling with zero bytes. Calling it
    /// again with the same alignment appends nothing.
    pub fn pad_to(&mut self, alignment: usize)
        requires
            old(self).wf(),
            1 <= alignment <= 8,
            old(self).buf@.len() + pad_len(old(self).pos(), alignment as int) <= usize::MAX,
        ensures
            final(self).wf(),
            final(self).start == old(self).start,
            final(self).endianness == old(self).endianness,
            final(self).buf@ == old(self).buf@ + pad(old(self).pos(), alignment as int),
            final(self).pos() % (alignment as int) == 0,
    {
        let pos = self.buf.len() - self.start;
        let rem = pos % alignment;
        proof {
            let a = alignment as int;
            let p = old(self).pos();
            if rem == 0 {
                vstd::arithmetic::div_mod::lemma_mod_self_0(a);
                assert(pad_len(p, a) == 0);
            } else {
                vstd::arithmetic::div_mod::lemma_small_mod((a - rem) as nat, a as nat);
                assert(pad_len(p, a) == a - rem);
            }
        }
        if rem != 0 {
            let need = alignment - rem;
            let mut k: usize = 0;
            while k < need
                invariant
                    k <= need,
                    self.wf(),
                    self.start == old(self).start,
                    self.endianness == old(self).endianness,
                    old(self).buf@.len() + need <= usize::MAX,
                    self.buf@ == old(self).buf@ + zeros(k as int),
                decreases need - k,
            {
                self.buf.push(0);
                k = k + 1;
                assert(self.buf@ =~= old(self).buf@ + zeros(k as int));
            }
        }
        proof {
            let a = alignment as int;
            let p = old(self).pos();
            if rem == 0 {
                assert(self.buf@ =~= old(self).buf@ + zeros(0));
                assert(self.pos() % a == 0);
            } else {
                vstd::arithmetic::div_mod::lemma_fundamental_div_mod(p, a);
                let q = p / a;
                assert((q + 1) * a == q * a + a) by (nonlinear_arith);
                assert(p + (a - rem) == (q + 1) * a);
                vstd::arithmetic::div_mod::lemma_mod_multiples_basic(q + 1, a);
                assert(self.pos() % a == 0);
            }
        }
    }

    /// Append the encoding of `v` at the current position. On success the
    /// buffer has grown by exactly `enc(v@, ..)`; success is owed exactly
    /// when every wire length field fits (`fits`). On failure the buffer
    /// holds a partial message and must be discarded by the caller.
    #[verifier::rlimit(100)]
    pub fn serialize(&mut self, v: &Variant) -> (r: Result<(), SerializeError>)
        requires
            old(self).wf(),
            valid(v@),
            old(self).buf@.len() + enc(v@, old(self).endianness, old(self).pos()).len()
                <= usize::MAX,
        ensures
            final(self).wf(),
            final(self).start == old(self).start,
            final(self).endianness == old(self).endianness,
            r is Ok <==> fits(v@, old(self).endianness, old(self).pos()),
            r is Ok ==> final(self).buf@ == old(self).buf@ + enc(
                v@,
                old(self).endianness,
                old(self).pos(),
            ),
            old(self).buf@.is_prefix_of(final(self).buf@),
        decreases v,
    {
        let ghost e = old(self).endianness;
        let ghost p0 = old(self).pos();
        match v {
            Variant::Byte(_)
            | Variant::Boolean(_)
            | Variant::I16(_)
            | Variant::U16(_)
            | Variant::I32(_)
            | Variant::U32(_)
            | Variant::I64(_)
            | Variant::U64(_)
            | Variant::F64Bits(_)
            | Variant::UnixFd(_) => self.serialize_basic(v),
            Variant::Str(_) | Variant::ObjectPath(_) | Variant::Signature(_) => self.serialize_text(
                v,
            ),
            Variant::Array { element_signature, elements } => self.serialize_array(
                element_signature,
                elements,
            ),
            Variant::Tuple { elements } => {
                let ghost fields = view_list(elements@);
                proof {
                    lemma_view_list(elements@);
                    lemma_valid_list_index(fields);
                }
                self.pad_to(8);
                let ghost p1 = p0 + pad_len(p0, 8);
                assert(self.buf@ =~= old(self).buf@ + pad(p0, 8));
                let res = self.serialize_list(elements);
                match res {
                    Ok(()) => {},
                    Err(er) => {
                        return Err(er);
                    },
                }
                assert(self.buf@ =~= old(self).buf@ + enc(v@, e, p0));
                Ok(())
            },
            Variant::DictEntry { key, value } => {
                self.pad_to(8);
                let ghost p1 = p0 + pad_len(p0, 8);
                assert(self.buf@ =~= old(self).buf@ + pad(p0, 8));
                let res = self.serialize(&**key);
                match res {
                    Ok(()) => {},
                    Err(er) => {
                        return Err(er);
                    },
                }
                let res = self.serialize(&**value);
                match res {
                    Ok(()) => {},
                    Err(er) => {
                        return Err(er);
                    },
                }
                assert(self.buf@ =~= old(self).buf@ + enc(v@, e, p0));
                Ok(())
            },
            Variant::VariantValue(inner) => {
                let g = inner.signature();
                let bl = g.len();
                self.buf.push(bl as u8);
                self.buf.extend_from_slice(g.as_slice());
                self.buf.push(0);
                assert(self.buf@ =~= old(self).buf@ + seq![as_u8(g@.len() as int)] + g@ + seq![
                    0u8,
                ]);
                let res = self.serialize(&**inner);
                match res {
                    Ok(()) => {},
                    Err(er) => {
                        return Err(er);
                    },
                }
                assert(self.buf@ =~= old(self).buf@ + enc(v@, e, p0));
                Ok(())
            },
        }
    }

    /// Append the encoding of a fixed-width value.
    #[verifier::rlimit(50)]
    fn serialize_basic(&mut self, v: &Variant) -> (r: Result<(), SerializeError>)
        requires
            old(self).wf(),
            valid(v@),
            v@ is Byte || v@ is Bool || v@ is I16 || v@ is U16 || v@ is I32 || v@ is U32
                || v@ is I64 || v@ is U64 || v@ is F64Bits || v@ is Fd,
            old(self).buf@.len() + enc(v@, old(self).endianness, old(self).pos()).len()
                <= usize::MAX,
        ensures
            final(self).wf(),
            final(self).start == old(self).start,
            final(self).endianness == old(self).endianness,
            r is Ok <==> fits(v@, old(self).endianness, old(self).pos()),
            r is Ok ==> final(self).buf@ == old(self).buf@ + enc(
                v@,
                old(self).endianness,
                old(self).pos(),
            ),
            old(self).buf@.is_prefix_of(final(self).buf@),
    {
        let ghost e = old(self).endianness;
        let ghost p0 = old(self).pos();
        match v {
            Variant::Byte(x) => {
                self.buf.push(*x);
                assert(self.buf@ =~= old(self).buf@ + enc(v@, e, p0));
                Ok(())
            },
            Variant::Boolean(b) => {
                let ghost x: u32 = if *b {
                    1
                } else {
                    0
                };
                proof {
                    lemma_u32_round_trip(e, x);
                }
                self.pad_to(4);
                push_u32(&mut self.buf, self.endianness, if *b {
                    1
                } else {
                    0
                });
                assert(self.buf@ =~= old(self).buf@ + enc(v@, e, p0));
                Ok(())
            },
            Variant::I16(x) => {
                proof {
                    lemma_u16_round_trip(e, i16_pat(*x));
                }
                self.pad_to(2);
                let w = to_i16_pat(*x);
                push_u16(&mut self.buf, self.endianness, w);
                assert(self.buf@ =~= old(self).buf@ + enc(v@, e, p0));
                Ok(())
            },
            Variant::U16(x) => {
                proof {
                    lemma_u16_round_trip(e, *x);
                }
                self.pad_to(2);
                push_u16(&mut self.buf, self.endianness, *x);
                assert(self.buf@ =~= old(self).buf@ + enc(v@, e, p0));
                Ok(())
            },
            Variant::I32(x) => {
                proof {
                    lemma_u32_round_trip(e, i32_pat(*x));
                }
                self.pad_to(4);
                let w = to_i32_pat(*x);
                push_u32(&mut self.buf, self.endianness, w);
                assert(self.buf@ =~= old(self).buf@ + enc(v@, e, p0));
                Ok(())
            },
            Variant::U32(x) => {
                proof {
                    lemma_u32_round_trip(e, *x);
                }
                self.pad_to(4);
                push_u32(&mut self.buf, self.endianness, *x);
                assert(self.buf@ =~= old(self).buf@ + enc(v@, e, p0));
                Ok(())
            },
            Variant::I64(x) => {
                proof {
                    lemma_u64_round_trip(e, i64_pat(*x));
                }
                self.pad_to(8);
                let w = to_i64_pat(*x);
                push_u64(&mut self.buf, self.endianness, w);
                assert(self.buf@ =~= old(self).buf@ + enc(v@, e, p0));
                Ok(())
            },
            Variant::U64(x) => {
                proof {
                    lemma_u64_round_trip(e, *x);
                }
                self.pad_to(8);
                push_u64(&mut self.buf, self.endianness, *x);
                assert(self.buf@ =~= old(self).buf@ + enc(v@, e, p0));
                Ok(())
            },
            Variant::F64Bits(x) => {
                proof {
                    lemma_u64_round_trip(e, *x);
                }
                self.pad_to(8);
                push_u64(&mut self.buf, self.endianness, *x);
                assert(self.buf@ =~= old(self).buf@ + enc(v@, e, p0));
                Ok(())
            },
            Variant::UnixFd(x) => {
                proof {
                    lemma_u32_round_trip(e, *x);
                }
                self.pad_to(4);
                push_u32(&mut self.buf, self.endianness, *x);
                assert(self.buf@ =~= old(self).buf@ + enc(v@, e, p0));
                Ok(())
            },
            _ => {
                proof {
                    assert(false);
                }
                Err(SerializeError::ExceedsNumericLimits)
            },
        }
    }

    /// Append the encoding of a string, object path, or signature value.
    #[verifier::rlimit(50)]
    fn serialize_text(&mut self, v: &Variant) -> (r: Result<(), SerializeError>)
        requires
            old(self).wf(),
            valid(v@),
            v@ is Str || v@ is Path || v@ is Sig,
            old(self).buf@.len() + enc(v@, old(self).endianness, old(self).pos()).len()
                <= usize::MAX,
        ensures
            final(self).wf(),
            final(self).start == old(self).start,
            final(self).endianness == old(self).endianness,
            r is Ok <==> fits(v@, old(self).endianness, old(self).pos()),
            r is Ok ==> final(self).buf@ == old(self).buf@ + enc(
                v@,
                old(self).endianness,
                old(self).pos(),
            ),
            old(self).buf@.is_prefix_of(final(self).buf@),
    {
        let ghost e = old(self).endianness;
        let ghost p0 = old(self).pos();
        match v {
            Variant::Str(s) => {
                proof {
                    lemma_u32_round_trip(e, as_u32(vstd::utf8::encode_utf8(s@).len() as int));
                }
                self.pad_to(4);
                let st = s.as_str();
                let bl = st.len();
                push_u32(&mut self.buf, self.endianness, bl as u32);
                self.buf.extend_from_slice(st.as_bytes());
                self.buf.push(0);
                assert(self.buf@ =~= old(self).buf@ + enc(v@, e, p0));
                Ok(())
            },
            Variant::ObjectPath(p) => {
                proof {
                    lemma_u32_round_trip(e, as_u32(p@.len() as int));
                }
                self.pad_to(4);
                let bl = p.len();
                push_u32(&mut self.buf, self.endianness, bl as u32);
                self.buf.extend_from_slice(p.as_slice());
                self.buf.push(0);
                assert(self.buf@ =~= old(self).buf@ + enc(v@, e, p0));
                Ok(())
            },
            Variant::Signature(g) => {
                let bl = g.len();
                self.buf.push(bl as u8);
                self.buf.extend_from_slice(g.as_slice());
                self.buf.push(0);
                assert(self.buf@ =~= old(self).buf@ + enc(v@, e, p0));
                Ok(())
            },
            _ => {
                proof {
                    assert(false);
                }
                Err(SerializeError::ExceedsNumericLimits)
            },
        }
    }

    /// Append the encoding of an array value: length field, pre-element
    /// padding, then the elements, then the length field backpatched with
    /// the exact byte size of the element region.
    #[verifier::rlimit(100)]
    #[verifier::spinoff_prover]
    fn serialize_array(&mut self, element_signature: &Vec<u8>, elements: &Vec<Variant>) -> (r:
        Result<(), SerializeError>)
        requires
            old(self).wf(),
            valid(arr_val(element_signature@, elements@)),
            old(self).buf@.len() + enc(
            arr_val(element_signature@, elements@),
            old(self).endianness,
            old(self).pos(),
            ).len() <= usize::MAX,
        ensures
            final(self).wf(),
            final(self).start == old(self).start,
            final(self).endianness == old(self).endianness,
            r is Ok <==> fits(
            arr_val(element_signature@, elements@),
            old(self).endianness,
            old(self).pos(),
            ),
            r is Ok ==> final(self).buf@ == old(self).buf@ + enc(
            arr_val(element_signature@, elements@),
            old(self).endianness,
            old(self).pos(),
            ),
            old(self).buf@.is_prefix_of(final(self).buf@),
        decreases elements@, 1int,
    {
        let ghost e = old(self).endianness;
        let ghost p0 = old(self).pos();
        let ghost v_arr = arr_val(element_signature@, elements@);
            let ghost esig = element_signature@;
            let ghost elems = view_list(elements@);
            proof {
                lemma_view_list(elements@);
                lemma_valid_elems_index(elems, esig);
                if esig.len() == 0 {
                    assert(type_end(esig, 0) == -1);
                }
                lemma_u32_round_trip(e, 0);
            }
            self.pad_to(4);
            let len_pos = self.buf.len();
            push_u32(&mut self.buf, self.endianness, 0);
            let ghost p1 = p0 + pad_len(p0, 4) + 4;
            let a = align_code(element_signature[0]);
            proof {
                lemma_u32_round_trip(
                    e,
                    as_u32(enc_list(elems, e, p1 + pad_len(p1, align_of_code(esig[0]))).len() as int),
                );
                assert(enc(v_arr, e, p0) == pad(p0, 4) + u32_bytes(
                    e,
                    as_u32(enc_list(elems, e, p1 + pad_len(p1, align_of_code(esig[0]))).len() as int),
                ) + pad(p1, align_of_code(esig[0])) + enc_list(
                    elems,
                    e,
                    p1 + pad_len(p1, align_of_code(esig[0])),
                ));
            }
            self.pad_to(a);
            let data_start = self.buf.len();
            let ghost p2 = p1 + pad_len(p1, align_of_code(esig[0]));
            assert(self.buf@ =~= old(self).buf@ + pad(p0, 4) + u32_bytes(e, 0) + pad(
                p1,
                align_of_code(esig[0]),
            ));
            assert(self.pos() == p2);
            let res = self.serialize_list(elements);
            match res {
                Ok(()) => {},
                Err(er) => {
                    return Err(er);
                },
            }
            let data_len = self.buf.len() - data_start;
            if data_len > (u32::MAX as usize) {
                return Err(SerializeError::ExceedsNumericLimits);
            }
            proof {
                lemma_u32_round_trip(e, data_len as u32);
            }
            write_u32_at(&mut self.buf, self.endianness, len_pos, data_len as u32);
            proof {
                let body = enc_list(elems, e, p2);
                assert(as_u32(body.len() as int) == data_len as u32);
                assert(self.buf@ =~= old(self).buf@ + enc(v_arr, e, p0));
            }
            Ok(())
            }

    /// Append the encodings of the values of `elements` one after the
    /// other at the current position.
    fn serialize_list(&mut self, elements: &Vec<Variant>) -> (r: Result<(), SerializeError>)
        requires
            old(self).wf(),
            forall|j: int| 0 <= j < elements@.len() ==> valid(#[trigger] elements@[j]@),
            old(self).buf@.len() + enc_list(
                view_list(elements@),
                old(self).endianness,
                old(self).pos(),
            ).len() <= usize::MAX,
        ensures
            final(self).wf(),
            final(self).start == old(self).start,
            final(self).endianness == old(self).endianness,
            r is Ok <==> fits_list(view_list(elements@), old(self).endianness, old(self).pos()),
            r is Ok ==> final(self).buf@ == old(self).buf@ + enc_list(
                view_list(elements@),
                old(self).endianness,
                old(self).pos(),
            ),
            old(self).buf@.is_prefix_of(final(self).buf@),
        decreases elements@, 0int,
    {
        let ghost e = old(self).endianness;
        let ghost p0 = old(self).pos();
        let ghost ws = view_list(elements@);
        proof {
            lemma_view_list(elements@);
        }
        let mut i: usize = 0;
        while i < elements.len()
            invariant
                i <= elements@.len(),
                self.wf(),
                self.start == old(self).start,
                self.endianness == e,
                e == old(self).endianness,
                p0 == old(self).pos(),
                ws == view_list(elements@),
                ws.len() == elements@.len(),
                forall|j: int| 0 <= j < ws.len() ==> ws[j] == #[trigger] elements@[j]@,
                forall|j: int| 0 <= j < elements@.len() ==> valid(#[trigger] elements@[j]@),
                fits_list(ws.take(i as int), e, p0),
                self.buf@ == old(self).buf@ + enc_list(ws.take(i as int), e, p0),
                old(self).buf@.len() + enc_list(ws, e, p0).len() <= usize::MAX,
            decreases elements@.len() - i,
        {
            let ghost q = p0 + enc_list(ws.take(i as int), e, p0).len();
            proof {
                lemma_enc_list_split(ws, e, p0, i as int);
                let sk = ws.skip(i as int);
                assert(sk[0] == ws[i as int]);
                assert(sk.subrange(1, sk.len() as int) =~= ws.skip(i as int + 1));
                assert(enc_list(sk, e, q) == enc(ws[i as int], e, q) + enc_list(
                    ws.skip(i as int + 1),
                    e,
                    q + enc(ws[i as int], e, q).len(),
                ));
                assert(fits_list(sk, e, q) == (fits(ws[i as int], e, q) && fits_list(
                    ws.skip(i as int + 1),
                    e,
                    q + enc(ws[i as int], e, q).len(),
                )));
                assert(self.pos() == q);
                assert(enc_list(ws, e, p0).len() >= enc_list(ws.take(i as int), e, p0).len()
                    + enc(ws[i as int], e, q).len());
            }
            let res = self.serialize(&elements[i]);
            match res {
                Ok(()) => {},
                Err(er) => {
                    proof {
                        assert(!fits(ws[i as int], e, q));
                        assert(!fits_list(ws, e, p0));
                    }
                    return Err(er);
                },
            }
            proof {
                lemma_enc_list_push(ws.take(i as int), ws[i as int], e, p0);
                assert(ws.take(i as int + 1) =~= ws.take(i as int).push(ws[i as int]));
                assert(self.buf@ =~= old(self).buf@ + enc_list(ws.take(i as int + 1), e, p0));
            }
            i = i + 1;
        }
        proof {
            assert(ws.take(ws.len() as int) =~= ws);
        }
        Ok(())
    }
}

} // verus!
