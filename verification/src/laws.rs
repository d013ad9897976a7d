//! The codec round-trip law: decoding the encoding of any well-formed
//! value yields exactly that value, in both byte orders, at any position.
use vstd::prelude::*;

use crate::Endianness;
use crate::de::{dec, dec_elems, dec_fields};
use crate::ser::{enc, enc_list, fits, fits_list, pad, pad_len, zeros, as_u32, as_u8};
use crate::val::{
    Val, valid, valid_elems, valid_list, valid_path, valid_sig_string, sig_of, sigs_of, type_end,
    struct_end, types_to_end, is_basic_code, align_of_code, lemma_type_end_bounds,
    lemma_struct_end_bounds, T_BYTE, T_BOOL, T_I16, T_U16, T_I32, T_U32, T_I64, T_U64, T_F64,
    T_STR, T_PATH, T_SIG, T_FD, T_ARR, T_VAR, T_SOPEN, T_SCLOSE, T_DOPEN, T_DCLOSE,
};
use crate::wire::{
    u16_bytes, u32_bytes, u64_bytes, u16_val, u32_val, u64_val, i16_pat, i32_pat, i64_pat,
    i16_of_pat, i32_of_pat, i64_of_pat, lemma_u16_round_trip, lemma_u32_round_trip,
    lemma_u64_round_trip, lemma_i16_pat_round_trip, lemma_i32_pat_round_trip,
    lemma_i64_pat_round_trip,
};

verus! {

/// A slice of a window: when `data` holds `b` at `pos`, any part of `b`
/// is found at the corresponding offset.
pub proof fn lemma_window(data: Seq<u8>, pos: int, b: Seq<u8>, lo: int, hi: int)
    requires
        0 <= pos,
        pos + b.len() <= data.len(),
        data.subrange(pos, pos + b.len()) == b,
        0 <= lo <= hi <= b.len(),
    ensures
        data.subrange(pos + lo, pos + hi) == b.subrange(lo, hi),
        forall|j: int| lo <= j < hi ==> data[pos + j] == #[trigger] b[j],
{
    assert forall|j: int| lo <= j < hi implies data[pos + j] == #[trigger] b[j] by {
        assert(b[j] == data.subrange(pos, pos + b.len())[j]);
    }
    assert(data.subrange(pos + lo, pos + hi) =~= b.subrange(lo, hi));
}

/// The encoding of a well-formed value is never empty.
pub proof fn lemma_enc_min(v: Val, e: Endianness, pos: int)
    requires
        valid(v),
    ensures
        enc(v, e, pos).len() >= 1,
    decreases v,
{
    match v {
        Val::Bool(_) | Val::I32(_) | Val::U32(_) | Val::Fd(_) => {
            lemma_u32_round_trip(e, 0);
            assert(u32_bytes(e, 0).len() == 4);
            match v {
                Val::Bool(b) => {
                    lemma_u32_round_trip(
                        e,
                        if b {
                            1
                        } else {
                            0
                        },
                    );
                },
                Val::I32(x) => {
                    lemma_u32_round_trip(e, i32_pat(x));
                },
                Val::U32(x) => {
                    lemma_u32_round_trip(e, x);
                },
                Val::Fd(x) => {
                    lemma_u32_round_trip(e, x);
                },
                _ => {},
            }
        },
        Val::I16(x) => {
            lemma_u16_round_trip(e, i16_pat(x));
        },
        Val::U16(x) => {
            lemma_u16_round_trip(e, x);
        },
        Val::I64(x) => {
            lemma_u64_round_trip(e, i64_pat(x));
        },
        Val::U64(x) => {
            lemma_u64_round_trip(e, x);
        },
        Val::F64Bits(x) => {
            lemma_u64_round_trip(e, x);
        },
        Val::Str(s) => {
            lemma_u32_round_trip(e, as_u32(vstd::utf8::encode_utf8(s).len() as int));
        },
        Val::Path(p) => {
            lemma_u32_round_trip(e, as_u32(p.len() as int));
        },
        Val::Arr { esig, elems } => {
            let p1 = pos + pad_len(pos, 4) + 4;
            let a = align_of_code(esig[0]);
            let p2 = p1 + pad_len(p1, a);
            lemma_u32_round_trip(e, as_u32(enc_list(elems, e, p2).len() as int));
        },
        Val::Struct { fields } => {
            let p = pos + pad_len(pos, 8);
            assert(fields.len() >= 1);
            assert(valid_list(fields));
            assert(valid(fields[0]));
            lemma_enc_min(fields[0], e, p);
            assert(enc_list(fields, e, p) == enc(fields[0], e, p) + enc_list(
                fields.subrange(1, fields.len() as int),
                e,
                p + enc(fields[0], e, p).len(),
            ));
        },
        Val::Dict { key, val } => {
            let p1 = pos + pad_len(pos, 8);
            lemma_enc_min(*key, e, p1);
        },
        _ => {},
    }
}

/// The signature of a well-formed value is one complete type, and begins
/// with something other than a closing parenthesis.
pub proof fn lemma_sig_single(v: Val)
    requires
        valid(v),
    ensures
        sig_of(v).len() >= 1,
        sig_of(v)[0] != T_SCLOSE,
        type_end(sig_of(v), 0) == sig_of(v).len(),
    decreases v, 0int,
{
    let g = sig_of(v);
    match v {
        Val::Arr { esig, elems } => {
            assert(g == seq![T_ARR] + esig);
            assert(g.subrange(1, g.len() as int) =~= esig);
            lemma_embed_type(esig, g, 1, 0);
            assert(type_end(g, 1) == 1 + esig.len());
        },
        Val::Struct { fields } => {
            assert(g == seq![T_SOPEN] + sigs_of(fields) + seq![T_SCLOSE]);
            assert(g.subrange(1, 1 + sigs_of(fields).len() as int) =~= sigs_of(fields));
            assert(g[1 + sigs_of(fields).len() as int] == T_SCLOSE);
            lemma_struct_chain(fields, g, 1);
            assert(struct_end(g, 1) == 1 + sigs_of(fields).len() + 1);
        },
        Val::Dict { key, val } => {
            let ks = sig_of(*key);
            let vs = sig_of(*val);
            assert(g == seq![T_DOPEN] + ks + vs + seq![T_DCLOSE]);
            lemma_sig_single(*key);
            lemma_sig_single(*val);
            assert(g[1] == ks[0]);
            assert(is_basic_code(g[1]));
            assert(g.subrange(2, 2 + vs.len() as int) =~= vs);
            lemma_embed_type(vs, g, 2, 0);
            assert(type_end(g, 2) == 2 + vs.len() as int);
            assert(g[2 + vs.len() as int] == T_DCLOSE);
        },
        _ => {},
    }
}

/// A sequence of well-formed field signatures followed by a closing
/// parenthesis parses as the remainder of a struct signature.
pub proof fn lemma_struct_chain(fs: Seq<Val>, sig: Seq<u8>, si: int)
    requires
        valid_list(fs),
        fs.len() >= 1,
        0 <= si,
        si + sigs_of(fs).len() < sig.len(),
        sig.subrange(si, si + sigs_of(fs).len()) == sigs_of(fs),
        sig[si + sigs_of(fs).len()] == T_SCLOSE,
    ensures
        struct_end(sig, si) == si + sigs_of(fs).len() + 1,
    decreases fs, 1int,
{
    let v0 = fs[0];
    let tail = fs.subrange(1, fs.len() as int);
    let g0 = sig_of(v0);
    assert(sigs_of(fs) == g0 + sigs_of(tail));
    lemma_sig_single(v0);
    lemma_window(sig, si, sigs_of(fs), 0, g0.len() as int);
    assert(sig.subrange(si, si + g0.len()) == g0);
    lemma_embed_type(g0, sig, si, 0);
    assert(type_end(sig, si) == si + g0.len());
    assert(sig[si] == g0[0]);
    let te = si + g0.len();
    if tail.len() == 0 {
        assert(sigs_of(tail) =~= Seq::<u8>::empty());
        assert(sigs_of(fs) =~= g0);
        assert(sig[te] == T_SCLOSE);
    } else {
        lemma_window(sig, si, sigs_of(fs), g0.len() as int, sigs_of(fs).len() as int);
        assert(sig.subrange(te, si + sigs_of(fs).len()) =~= sigs_of(tail));
        assert(valid_list(tail));
        assert(valid(tail[0]));
        lemma_sig_single(tail[0]);
        assert(sigs_of(tail) == sig_of(tail[0]) + sigs_of(
            tail.subrange(1, tail.len() as int),
        ));
        assert(sig[te] == sigs_of(tail)[0]);
        assert(sig[te] == sig_of(tail[0])[0]);
        assert(sig[te] != T_SCLOSE);
        lemma_struct_chain(tail, sig, te);
    }
}

/// A complete type found inside `g` is found at the same relative place
/// when `g` stands inside a longer signature.
pub proof fn lemma_embed_type(g: Seq<u8>, sig: Seq<u8>, si: int, gi: int)
    requires
        0 <= si,
        0 <= gi,
        si + g.len() <= sig.len(),
        sig.subrange(si, si + g.len()) == g,
        type_end(g, gi) >= 0,
    ensures
        type_end(sig, si + gi) == si + type_end(g, gi),
    decreases g.len() - gi, 0int,
{
    lemma_type_end_bounds(g, gi);
    let te = type_end(g, gi);
    assert(gi < te <= g.len());
    lemma_window(sig, si, g, gi, g.len() as int);
    assert(sig[si + gi] == g[gi]);
    let c = g[gi];
    if is_basic_code(c) || c == T_VAR {
    } else if c == T_ARR {
        lemma_embed_type(g, sig, si, gi + 1);
    } else if c == T_SOPEN {
        lemma_embed_struct(g, sig, si, gi + 1);
    } else if c == T_DOPEN {
        assert(gi + 1 < g.len() && is_basic_code(g[gi + 1]));
        assert(sig[si + gi + 1] == g[gi + 1]);
        let ve = type_end(g, gi + 2);
        lemma_type_end_bounds(g, gi + 2);
        assert(0 <= ve && ve < g.len() && g[ve] == T_DCLOSE);
        lemma_embed_type(g, sig, si, gi + 2);
        assert(sig[si + ve] == g[ve]);
    }
}

/// Round trip for values of the basic types and text types: decoding
/// their encoding yields them back.
#[verifier::rlimit(100)]
#[verifier::spinoff_prover]
pub proof fn lemma_rt_basic(v: Val, e: Endianness, data: Seq<u8>, pos: int, sig: Seq<u8>, si: int)
    requires
        valid(v),
        v is Byte || v is Bool || v is I16 || v is U16 || v is I32 || v is U32 || v is I64
            || v is U64 || v is F64Bits || v is Fd || v is Str || v is Path || v is Sig,
        0 <= pos,
        0 <= si,
        si + sig_of(v).len() <= sig.len(),
        sig.subrange(si, si + sig_of(v).len()) == sig_of(v),
        pos + enc(v, e, pos).len() <= data.len(),
        data.subrange(pos, pos + enc(v, e, pos).len()) == enc(v, e, pos),
    ensures
        dec(data, e, pos, sig, si) == Some(
            (v, pos + enc(v, e, pos).len(), si + sig_of(v).len()),
        ),
{
    let b = enc(v, e, pos);
    let g = sig_of(v);
    lemma_window(sig, si, g, 0, 1);
    assert(sig[si] == g[0]);
    match v {
        Val::Byte(x) => {
            lemma_window(data, pos, b, 0, 1);
            assert(b[0] == x);
            assert(data[pos + 0] == b[0]);
        },
        Val::Bool(w) => {
            let x: u32 = if w {
                1
            } else {
                0
            };
            lemma_u32_round_trip(e, x);
            let n = pad_len(pos, 4);
            lemma_window(data, pos, b, n, n + 4);
            assert(data.subrange(pos + n, pos + n + 4) =~= u32_bytes(e, x));
        },
        Val::I16(x) => {
            lemma_u16_round_trip(e, i16_pat(x));
            let n = pad_len(pos, 2);
            lemma_window(data, pos, b, n, n + 2);
            assert(data.subrange(pos + n, pos + n + 2) =~= u16_bytes(e, i16_pat(x)));
            lemma_i16_pat_round_trip(x);
        },
        Val::U16(x) => {
            lemma_u16_round_trip(e, x);
            let n = pad_len(pos, 2);
            lemma_window(data, pos, b, n, n + 2);
            assert(data.subrange(pos + n, pos + n + 2) =~= u16_bytes(e, x));
        },
        Val::I32(x) => {
            lemma_u32_round_trip(e, i32_pat(x));
            let n = pad_len(pos, 4);
            lemma_window(data, pos, b, n, n + 4);
            assert(data.subrange(pos + n, pos + n + 4) =~= u32_bytes(e, i32_pat(x)));
            lemma_i32_pat_round_trip(x);
        },
        Val::U32(x) => {
            lemma_u32_round_trip(e, x);
            let n = pad_len(pos, 4);
            lemma_window(data, pos, b, n, n + 4);
            assert(data.subrange(pos + n, pos + n + 4) =~= u32_bytes(e, x));
        },
        Val::Fd(x) => {
            lemma_u32_round_trip(e, x);
            let n = pad_len(pos, 4);
            lemma_window(data, pos, b, n, n + 4);
            assert(data.subrange(pos + n, pos + n + 4) =~= u32_bytes(e, x));
        },
        Val::I64(x) => {
            lemma_u64_round_trip(e, i64_pat(x));
            let n = pad_len(pos, 8);
            lemma_window(data, pos, b, n, n + 8);
            assert(data.subrange(pos + n, pos + n + 8) =~= u64_bytes(e, i64_pat(x)));
            lemma_i64_pat_round_trip(x);
        },
        Val::U64(x) => {
            lemma_u64_round_trip(e, x);
            let n = pad_len(pos, 8);
            lemma_window(data, pos, b, n, n + 8);
            assert(data.subrange(pos + n, pos + n + 8) =~= u64_bytes(e, x));
        },
        Val::F64Bits(x) => {
            lemma_u64_round_trip(e, x);
            let n = pad_len(pos, 8);
            lemma_window(data, pos, b, n, n + 8);
            assert(data.subrange(pos + n, pos + n + 8) =~= u64_bytes(e, x));
        },
        Val::Str(s) => {
            let bytes = vstd::utf8::encode_utf8(s);
            let l = bytes.len() as int;
            vstd::arithmetic::div_mod::lemma_small_mod(l as nat, 0x1_0000_0000nat);
            lemma_u32_round_trip(e, as_u32(l));
            let n = pad_len(pos, 4);
            lemma_window(data, pos, b, n, n + 4);
            assert(data.subrange(pos + n, pos + n + 4) =~= u32_bytes(e, as_u32(l)));
            let q = pos + n + 4;
            lemma_window(data, pos, b, n + 4, n + 4 + l);
            assert(data.subrange(q, q + l) =~= bytes);
            lemma_window(data, pos, b, n + 4 + l, n + 4 + l + 1);
            assert(data[q + l] == b[n + 4 + l]);
            assert(b[n + 4 + l] == 0);
            vstd::utf8::encode_utf8_valid_utf8(s);
            vstd::utf8::encode_utf8_decode_utf8(s);
        },
        Val::Path(p) => {
            let l = p.len() as int;
            vstd::arithmetic::div_mod::lemma_small_mod(l as nat, 0x1_0000_0000nat);
            lemma_u32_round_trip(e, as_u32(l));
            let n = pad_len(pos, 4);
            lemma_window(data, pos, b, n, n + 4);
            assert(data.subrange(pos + n, pos + n + 4) =~= u32_bytes(e, as_u32(l)));
            let q = pos + n + 4;
            lemma_window(data, pos, b, n + 4, n + 4 + l);
            assert(data.subrange(q, q + l) =~= p);
            lemma_window(data, pos, b, n + 4 + l, n + 4 + l + 1);
            assert(data[q + l] == b[n + 4 + l]);
            assert(b[n + 4 + l] == 0);
        },
        Val::Sig(gs) => {
            let l = gs.len() as int;
            vstd::arithmetic::div_mod::lemma_small_mod(l as nat, 0x100nat);
            lemma_window(data, pos, b, 0, 1);
            assert(b[0] == as_u8(l));
            assert(data[pos + 0] == b[0]);
            let q = pos + 1;
            lemma_window(data, pos, b, 1, 1 + l);
            assert(data.subrange(q, q + l) =~= gs);
            lemma_window(data, pos, b, 1 + l, 1 + l + 1);
            assert(data[q + l] == b[1 + l]);
            assert(b[1 + l] == 0);
        },
        _ => {},
    }
}

/// The remainder of a struct signature found inside `g` is found at the
/// same relative place when `g` stands inside a longer signature.
pub proof fn lemma_embed_struct(g: Seq<u8>, sig: Seq<u8>, si: int, gi: int)
    requires
        0 <= si,
        0 <= gi,
        si + g.len() <= sig.len(),
        sig.subrange(si, si + g.len()) == g,
        struct_end(g, gi) >= 0,
    ensures
        struct_end(sig, si + gi) == si + struct_end(g, gi),
    decreases g.len() - gi, 1int,
{
    lemma_struct_end_bounds(g, gi);
    lemma_window(sig, si, g, gi, g.len() as int);
    assert(sig[si + gi] == g[gi]);
    let te = type_end(g, gi);
    lemma_type_end_bounds(g, gi);
    assert(te > gi && te < g.len());
    lemma_embed_type(g, sig, si, gi);
    assert(sig[si + te] == g[te]);
    if g[te] == T_SCLOSE {
    } else {
        lemma_embed_struct(g, sig, si, te);
    }
}

/// The round-trip law: decoding the encoding of any well-formed value
/// whose wire length fields fit yields exactly that value and consumes
/// exactly its bytes and its signature, in both byte orders, wherever it
/// stands in a message.
#[verifier::rlimit(100)]
#[verifier::spinoff_prover]
pub proof fn lemma_round_trip(v: Val, e: Endianness, data: Seq<u8>, pos: int, sig: Seq<u8>, si: int)
    requires
        valid(v),
        fits(v, e, pos),
        0 <= pos,
        0 <= si,
        si + sig_of(v).len() <= sig.len(),
        sig.subrange(si, si + sig_of(v).len()) == sig_of(v),
        pos + enc(v, e, pos).len() <= data.len(),
        data.subrange(pos, pos + enc(v, e, pos).len()) == enc(v, e, pos),
    ensures
        dec(data, e, pos, sig, si) == Some(
            (v, pos + enc(v, e, pos).len(), si + sig_of(v).len()),
        ),
    decreases v, 2int,
{
    match v {
        Val::Arr { .. } => {
            lemma_rt_arr(v, e, data, pos, sig, si);
        },
        Val::Struct { .. } => {
            lemma_rt_struct(v, e, data, pos, sig, si);
        },
        Val::Dict { .. } => {
            lemma_rt_dict(v, e, data, pos, sig, si);
        },
        Val::Var { .. } => {
            lemma_rt_var(v, e, data, pos, sig, si);
        },
        _ => {
            lemma_rt_basic(v, e, data, pos, sig, si);
        },
    }
}

/// Round trip for an array value.
#[verifier::rlimit(100)]
#[verifier::spinoff_prover]
proof fn lemma_rt_arr(v: Val, e: Endianness, data: Seq<u8>, pos: int, sig: Seq<u8>, si: int)
    requires
        valid(v),
        fits(v, e, pos),
        0 <= pos,
        0 <= si,
        si + sig_of(v).len() <= sig.len(),
        sig.subrange(si, si + sig_of(v).len()) == sig_of(v),
        pos + enc(v, e, pos).len() <= data.len(),
        data.subrange(pos, pos + enc(v, e, pos).len()) == enc(v, e, pos),
        v is Arr,
    ensures
        dec(data, e, pos, sig, si) == Some(
            (v, pos + enc(v, e, pos).len(), si + sig_of(v).len()),
        ),
    decreases v, 0int,
{
    let b = enc(v, e, pos);
    let g = sig_of(v);
    lemma_window(sig, si, g, 0, 1);
    assert(sig[si + 0] == g[0]);
    match v {
        Val::Arr { esig, elems } => {
            lemma_type_end_bounds(esig, 0);
            assert(esig.len() >= 1);
            assert(g.subrange(1, g.len() as int) =~= esig);
            lemma_window(sig, si, g, 1, g.len() as int);
            assert(sig.subrange(si + 1, si + g.len()) == esig);
            lemma_embed_type(esig, sig, si + 1, 0);
            assert(type_end(sig, si + 1) == si + 1 + esig.len());
            let n = pad_len(pos, 4);
            let p1 = pos + n + 4;
            let a = align_of_code(esig[0]);
            let p2 = p1 + pad_len(p1, a);
            let body = enc_list(elems, e, p2);
            let l = body.len() as int;
            vstd::arithmetic::div_mod::lemma_small_mod(l as nat, 0x1_0000_0000nat);
            lemma_u32_round_trip(e, as_u32(l));
            lemma_window(data, pos, b, n, n + 4);
            assert(data.subrange(pos + n, pos + n + 4) =~= u32_bytes(e, as_u32(l)));
            assert(sig[si + 1] == esig[0]);
            lemma_window(data, pos, b, n + 4 + pad_len(p1, a), b.len() as int);
            assert(data.subrange(p2, p2 + l) =~= body);
            lemma_rt_elems(elems, esig, e, data, p2, p2 + l, sig, si + 1);
            assert(sig.subrange(si + 1, si + 1 + esig.len()) =~= esig);
        },
        _ => {},
    }
}

/// Round trip for a struct value.
#[verifier::rlimit(100)]
#[verifier::spinoff_prover]
proof fn lemma_rt_struct(v: Val, e: Endianness, data: Seq<u8>, pos: int, sig: Seq<u8>, si: int)
    requires
        valid(v),
        fits(v, e, pos),
        0 <= pos,
        0 <= si,
        si + sig_of(v).len() <= sig.len(),
        sig.subrange(si, si + sig_of(v).len()) == sig_of(v),
        pos + enc(v, e, pos).len() <= data.len(),
        data.subrange(pos, pos + enc(v, e, pos).len()) == enc(v, e, pos),
        v is Struct,
    ensures
        dec(data, e, pos, sig, si) == Some(
            (v, pos + enc(v, e, pos).len(), si + sig_of(v).len()),
        ),
    decreases v, 0int,
{
    let b = enc(v, e, pos);
    let g = sig_of(v);
    lemma_window(sig, si, g, 0, 1);
    assert(sig[si + 0] == g[0]);
    match v {
        Val::Struct { fields } => {
            let n = pad_len(pos, 8);
            let p = pos + n;
            let fsig = sigs_of(fields);
            assert(g == seq![T_SOPEN] + fsig + seq![T_SCLOSE]);
            lemma_window(sig, si, g, 1, 1 + fsig.len() as int);
            assert(sig.subrange(si + 1, si + 1 + fsig.len()) =~= fsig);
            lemma_window(sig, si, g, 1 + fsig.len() as int, g.len() as int);
            assert(sig[si + 1 + fsig.len() as int] == g[1 + fsig.len() as int]);
            assert(g[1 + fsig.len() as int] == T_SCLOSE);
            lemma_window(data, pos, b, n, b.len() as int);
            assert(data.subrange(p, pos + b.len()) =~= enc_list(fields, e, p));
            lemma_rt_fields(fields, e, data, p, sig, si + 1);
        },
        _ => {},
    }
}

/// The key half of a dict entry decodes in place.
#[verifier::rlimit(100)]
#[verifier::spinoff_prover]
proof fn lemma_rt_dict_key(v: Val, e: Endianness, data: Seq<u8>, pos: int, sig: Seq<u8>, si: int)
    requires
        valid(v),
        fits(v, e, pos),
        0 <= pos,
        0 <= si,
        si + sig_of(v).len() <= sig.len(),
        sig.subrange(si, si + sig_of(v).len()) == sig_of(v),
        pos + enc(v, e, pos).len() <= data.len(),
        data.subrange(pos, pos + enc(v, e, pos).len()) == enc(v, e, pos),
        v is Dict,
    ensures
        si + 1 < sig.len() && is_basic_code(sig[si + 1]),
        ({
            let p = pos + pad_len(pos, 8);
            let kb = enc(*v->Dict_key, e, p);
            dec(data, e, p, sig, si + 1) == Some((*v->Dict_key, p + kb.len(), si + 2))
        }),
    decreases v, 0int,
{
    let b = enc(v, e, pos);
    let g = sig_of(v);
    lemma_window(sig, si, g, 0, 1);
    assert(sig[si + 0] == g[0]);
    match v {
        Val::Dict { key, val } => {
            let ks = sig_of(*key);
            let vs = sig_of(*val);
            assert(g == seq![T_DOPEN] + ks + vs + seq![T_DCLOSE]);
            lemma_sig_single(*key);
            lemma_window(sig, si, g, 1, 2);
            assert(sig[si + 1] == g[1]);
            assert(g[1] == ks[0]);
            let n = pad_len(pos, 8);
            let p = pos + n;
            let kb = enc(*key, e, p);
            let vb = enc(*val, e, p + kb.len());
            assert(b == pad(pos, 8) + kb + vb);
            lemma_window(data, pos, b, n, n + kb.len() as int);
            assert(data.subrange(p, p + kb.len()) =~= kb);
            lemma_window(sig, si, g, 1, 1 + ks.len() as int);
            assert(sig.subrange(si + 1, si + 1 + ks.len()) =~= ks);
            assert(ks.len() == 1);
            lemma_round_trip(*key, e, data, p, sig, si + 1);
        },
        _ => {},
    }
}

/// The value half of a dict entry decodes in place, ending right before
/// the closing brace of the signature.
#[verifier::rlimit(100)]
#[verifier::spinoff_prover]
proof fn lemma_rt_dict_val(v: Val, e: Endianness, data: Seq<u8>, pos: int, sig: Seq<u8>, si: int)
    requires
        valid(v),
        fits(v, e, pos),
        0 <= pos,
        0 <= si,
        si + sig_of(v).len() <= sig.len(),
        sig.subrange(si, si + sig_of(v).len()) == sig_of(v),
        pos + enc(v, e, pos).len() <= data.len(),
        data.subrange(pos, pos + enc(v, e, pos).len()) == enc(v, e, pos),
        v is Dict,
    ensures
        ({
            let p = pos + pad_len(pos, 8);
            let kb = enc(*v->Dict_key, e, p);
            let vs = sig_of(*v->Dict_val);
            &&& dec(data, e, p + kb.len(), sig, si + 2) == Some(
                (*v->Dict_val, pos + enc(v, e, pos).len(), si + 2 + vs.len()),
            )
            &&& si + 2 + vs.len() == si + sig_of(v).len() - 1
            &&& si + 2 + vs.len() < sig.len()
            &&& sig[si + 2 + vs.len()] == T_DCLOSE
        }),
    decreases v, 0int,
{
    let b = enc(v, e, pos);
    let g = sig_of(v);
    match v {
        Val::Dict { key, val } => {
            let ks = sig_of(*key);
            let vs = sig_of(*val);
            assert(g == seq![T_DOPEN] + ks + vs + seq![T_DCLOSE]);
            lemma_sig_single(*key);
            lemma_sig_single(*val);
            assert(ks.len() == 1);
            let n = pad_len(pos, 8);
            let p = pos + n;
            let kb = enc(*key, e, p);
            let vb = enc(*val, e, p + kb.len());
            assert(b == pad(pos, 8) + kb + vb);
            let kp = p + kb.len();
            lemma_window(data, pos, b, n + kb.len() as int, b.len() as int);
            assert(data.subrange(kp, pos + b.len()) =~= vb);
            lemma_window(sig, si, g, 1 + ks.len() as int, 1 + ks.len() + vs.len() as int);
            assert(sig.subrange(si + 1 + ks.len(), si + 1 + ks.len() + vs.len()) =~= vs);
            lemma_round_trip(*val, e, data, kp, sig, si + 2);
            lemma_window(sig, si, g, g.len() as int - 1, g.len() as int);
            assert(sig[si + g.len() - 1] == g[g.len() - 1]);
            assert(g[g.len() - 1] == T_DCLOSE);
        },
        _ => {},
    }
}

/// Round trip for a dict-entry value.
#[verifier::rlimit(100)]
#[verifier::spinoff_prover]
proof fn lemma_rt_dict(v: Val, e: Endianness, data: Seq<u8>, pos: int, sig: Seq<u8>, si: int)
    requires
        valid(v),
        fits(v, e, pos),
        0 <= pos,
        0 <= si,
        si + sig_of(v).len() <= sig.len(),
        sig.subrange(si, si + sig_of(v).len()) == sig_of(v),
        pos + enc(v, e, pos).len() <= data.len(),
        data.subrange(pos, pos + enc(v, e, pos).len()) == enc(v, e, pos),
        v is Dict,
    ensures
        dec(data, e, pos, sig, si) == Some(
            (v, pos + enc(v, e, pos).len(), si + sig_of(v).len()),
        ),
    decreases v, 1int,
{
    let b = enc(v, e, pos);
    let g = sig_of(v);
    lemma_window(sig, si, g, 0, 1);
    assert(sig[si + 0] == g[0]);
    lemma_rt_dict_key(v, e, data, pos, sig, si);
    lemma_rt_dict_val(v, e, data, pos, sig, si);
    match v {
        Val::Dict { key, val } => {
            let p = pos + pad_len(pos, 8);
            let kb = enc(*key, e, p);
            lemma_enc_min(*key, e, p);
            lemma_sig_single(*val);
        },
        _ => {},
    }
}

/// Round trip for a self-describing variant value.
#[verifier::rlimit(100)]
#[verifier::spinoff_prover]
proof fn lemma_rt_var(v: Val, e: Endianness, data: Seq<u8>, pos: int, sig: Seq<u8>, si: int)
    requires
        valid(v),
        fits(v, e, pos),
        0 <= pos,
        0 <= si,
        si + sig_of(v).len() <= sig.len(),
        sig.subrange(si, si + sig_of(v).len()) == sig_of(v),
        pos + enc(v, e, pos).len() <= data.len(),
        data.subrange(pos, pos + enc(v, e, pos).len()) == enc(v, e, pos),
        v is Var,
    ensures
        dec(data, e, pos, sig, si) == Some(
            (v, pos + enc(v, e, pos).len(), si + sig_of(v).len()),
        ),
    decreases v, 0int,
{
    let b = enc(v, e, pos);
    let g = sig_of(v);
    lemma_window(sig, si, g, 0, 1);
    assert(sig[si + 0] == g[0]);
    match v {
        Val::Var { inner } => {
            let gi = sig_of(*inner);
            let gl = gi.len() as int;
            lemma_sig_single(*inner);
            vstd::arithmetic::div_mod::lemma_small_mod(gl as nat, 0x100nat);
            let ib = enc(*inner, e, pos + 2 + gl);
            assert(b == seq![as_u8(gl)] + gi + seq![0u8] + ib);
            lemma_window(data, pos, b, 0, 1);
            assert(b[0] == as_u8(gl));
            assert(data[pos + 0] == b[0]);
            lemma_window(data, pos, b, 1, 1 + gl);
            assert(data.subrange(pos + 1, pos + 1 + gl) =~= gi);
            lemma_window(data, pos, b, 1 + gl, 2 + gl);
            assert(data[pos + 1 + gl] == b[1 + gl]);
            assert(b[1 + gl] == 0);
            lemma_window(data, pos, b, 2 + gl, b.len() as int);
            assert(data.subrange(pos + 2 + gl, pos + b.len()) =~= ib);
            assert(gi.subrange(0, gl) =~= gi);
            lemma_round_trip(*inner, e, data, pos + 2 + gl, gi, 0);
        },
        _ => {},
    }
}

/// Round trip for the elements of an array: they are read back exactly,
/// consuming exactly the declared element region.
#[verifier::rlimit(100)]
#[verifier::spinoff_prover]
pub proof fn lemma_rt_elems(
    elems: Seq<Val>,
    esig: Seq<u8>,
    e: Endianness,
    data: Seq<u8>,
    pos: int,
    end: int,
    sig: Seq<u8>,
    si: int,
)
    requires
        valid_elems(elems, esig),
        fits_list(elems, e, pos),
        0 <= pos,
        0 <= si,
        si + esig.len() <= sig.len(),
        sig.subrange(si, si + esig.len()) == esig,
        end == pos + enc_list(elems, e, pos).len(),
        end <= data.len(),
        data.subrange(pos, end) == enc_list(elems, e, pos),
    ensures
        dec_elems(data, e, pos, end, sig, si) == Some((elems, end)),
    decreases elems, 1int,
{
    if elems.len() == 0 {
        assert(enc_list(elems, e, pos) =~= Seq::<u8>::empty());
        assert(dec_elems(data, e, pos, end, sig, si) == Some((Seq::<Val>::empty(), pos)));
        assert(Seq::<Val>::empty() =~= elems);
    } else {
        let v0 = elems[0];
        let tail = elems.subrange(1, elems.len() as int);
        let b0 = enc(v0, e, pos);
        let el = enc_list(elems, e, pos);
        assert(el == b0 + enc_list(tail, e, pos + b0.len()));
        lemma_enc_min(v0, e, pos);
        assert(v0 == elems[0]);
        lemma_window(data, pos, el, 0, b0.len() as int);
        assert(data.subrange(pos, pos + b0.len()) =~= b0);
        lemma_round_trip(v0, e, data, pos, sig, si);
        let p2 = pos + b0.len();
        lemma_window(data, pos, el, b0.len() as int, el.len() as int);
        assert(data.subrange(p2, end) =~= enc_list(tail, e, p2));
        lemma_rt_elems(tail, esig, e, data, p2, end, sig, si);
        assert(seq![v0] + tail =~= elems);
    }
}

/// Round trip for the fields of a struct: they are read back exactly, up
/// to and through the closing parenthesis of the signature.
#[verifier::rlimit(100)]
#[verifier::spinoff_prover]
pub proof fn lemma_rt_fields(
    fs: Seq<Val>,
    e: Endianness,
    data: Seq<u8>,
    pos: int,
    sig: Seq<u8>,
    si: int,
)
    requires
        valid_list(fs),
        fits_list(fs, e, pos),
        0 <= pos,
        0 <= si,
        si + sigs_of(fs).len() < sig.len(),
        sig.subrange(si, si + sigs_of(fs).len()) == sigs_of(fs),
        sig[si + sigs_of(fs).len()] == T_SCLOSE,
        pos + enc_list(fs, e, pos).len() <= data.len(),
        data.subrange(pos, pos + enc_list(fs, e, pos).len()) == enc_list(fs, e, pos),
    ensures
        dec_fields(data, e, pos, sig, si) == Some(
            (fs, pos + enc_list(fs, e, pos).len(), si + sigs_of(fs).len() + 1),
        ),
    decreases fs, 1int,
{
    if fs.len() == 0 {
        assert(sigs_of(fs) =~= Seq::<u8>::empty());
        assert(enc_list(fs, e, pos) =~= Seq::<u8>::empty());
        assert(sig[si] == T_SCLOSE);
        assert(dec_fields(data, e, pos, sig, si) == Some((Seq::<Val>::empty(), pos, si + 1)));
        assert(Seq::<Val>::empty() =~= fs);
    } else {
        let v0 = fs[0];
        let tail = fs.subrange(1, fs.len() as int);
        let g0 = sig_of(v0);
        let fsig = sigs_of(fs);
        assert(fsig == g0 + sigs_of(tail));
        lemma_sig_single(v0);
        lemma_window(sig, si, fsig, 0, g0.len() as int);
        assert(sig.subrange(si, si + g0.len()) =~= g0);
        assert(sig[si + 0] == g0[0]);
        assert(sig[si] != T_SCLOSE);
        let b0 = enc(v0, e, pos);
        let el = enc_list(fs, e, pos);
        assert(el == b0 + enc_list(tail, e, pos + b0.len()));
        lemma_window(data, pos, el, 0, b0.len() as int);
        assert(data.subrange(pos, pos + b0.len()) =~= b0);
        lemma_round_trip(v0, e, data, pos, sig, si);
        let p2 = pos + b0.len();
        let s2 = si + g0.len() as int;
        lemma_window(data, pos, el, b0.len() as int, el.len() as int);
        assert(data.subrange(p2, pos + el.len()) =~= enc_list(tail, e, p2));
        lemma_window(sig, si, fsig, g0.len() as int, fsig.len() as int);
        assert(sig.subrange(s2, si + fsig.len()) =~= sigs_of(tail));
        lemma_rt_fields(tail, e, data, p2, sig, s2);
        assert(seq![v0] + tail =~= fs);
    }
}

} // verus!
