//! The D-Bus value model: dynamically typed values, their type signatures,
//! and the signature grammar.
use vstd::prelude::*;

verus! {

/// ASCII type codes of the signature grammar.
pub const T_BYTE: u8 = 121;

pub const T_BOOL: u8 = 98;

pub const T_I16: u8 = 110;

pub const T_U16: u8 = 113;

pub const T_I32: u8 = 105;

pub const T_U32: u8 = 117;

pub const T_I64: u8 = 120;

pub const T_U64: u8 = 116;

pub const T_F64: u8 = 100;

pub const T_STR: u8 = 115;

pub const T_PATH: u8 = 111;

pub const T_SIG: u8 = 103;

pub const T_FD: u8 = 104;

pub const T_ARR: u8 = 97;

pub const T_VAR: u8 = 118;

pub const T_SOPEN: u8 = 40;

pub const T_SCLOSE: u8 = 41;

pub const T_DOPEN: u8 = 123;

pub const T_DCLOSE: u8 = 125;

/// Mathematical model of one D-Bus value. Text is a sequence of characters,
/// object paths and signatures are sequences of ASCII bytes, and containers
/// hold sequences of nested values.
pub enum Val {
    Byte(u8),
    Bool(bool),
    I16(i16),
    U16(u16),
    I32(i32),
    U32(u32),
    I64(i64),
    U64(u64),
    /// An IEEE-754 double, carried as its 8-byte bit pattern.
    F64Bits(u64),
    Str(Seq<char>),
    Path(Seq<u8>),
    Sig(Seq<u8>),
    Arr { esig: Seq<u8>, elems: Seq<Val> },
    Struct { fields: Seq<Val> },
    Dict { key: Box<Val>, val: Box<Val> },
    Var { inner: Box<Val> },
    Fd(u32),
}

/// One D-Bus value as a program holds it: a dynamically typed tree.
/// An array carries the signature of its element type so that even an
/// empty array knows its element alignment.
#[derive(Debug)]
pub enum Variant {
    Byte(u8),
    Boolean(bool),
    I16(i16),
    U16(u16),
    I32(i32),
    U32(u32),
    I64(i64),
    U64(u64),
    /// An IEEE-754 double, carried as its 8-byte bit pattern
    /// (`f64::to_bits` / `f64::from_bits` convert at the edge).
    F64Bits(u64),
    Str(String),
    ObjectPath(Vec<u8>),
    Signature(Vec<u8>),
    Array { element_signature: Vec<u8>, elements: Vec<Variant> },
    Tuple { elements: Vec<Variant> },
    DictEntry { key: Box<Variant>, value: Box<Variant> },
    VariantValue(Box<Variant>),
    UnixFd(u32),
}

impl View for Variant {
    type V = Val;

    open spec fn view(&self) -> Val
        decreases self,
    {
        match self {
            Variant::Byte(x) => Val::Byte(*x),
            Variant::Boolean(x) => Val::Bool(*x),
            Variant::I16(x) => Val::I16(*x),
            Variant::U16(x) => Val::U16(*x),
            Variant::I32(x) => Val::I32(*x),
            Variant::U32(x) => Val::U32(*x),
            Variant::I64(x) => Val::I64(*x),
            Variant::U64(x) => Val::U64(*x),
            Variant::F64Bits(x) => Val::F64Bits(*x),
            Variant::Str(s) => Val::Str(s@),
            Variant::ObjectPath(p) => Val::Path(p@),
            Variant::Signature(g) => Val::Sig(g@),
            Variant::Array { element_signature, elements } => Val::Arr {
                esig: element_signature@,
                elems: view_list(elements@),
            },
            Variant::Tuple { elements } => Val::Struct { fields: view_list(elements@) },
            Variant::DictEntry { key, value } => Val::Dict {
                key: Box::new((**key)@),
                val: Box::new((**value)@),
            },
            Variant::VariantValue(inner) => Val::Var { inner: Box::new((**inner)@) },
            Variant::UnixFd(x) => Val::Fd(*x),
        }
    }
}

/// The views of a sequence of values, in order.
pub open spec fn view_list(vs: Seq<Variant>) -> Seq<Val>
    decreases vs,
{
    if vs.len() == 0 {
        Seq::empty()
    } else {
        seq![vs[0]@] + view_list(vs.subrange(1, vs.len() as int))
    }
}

/// `view_list` maps each element to its view.
pub proof fn lemma_view_list(vs: Seq<Variant>)
    ensures
        view_list(vs).len() == vs.len(),
        forall|i: int| 0 <= i < vs.len() ==> view_list(vs)[i] == #[trigger] vs[i]@,
    decreases vs.len(),
{
    if vs.len() > 0 {
        let tail = vs.subrange(1, vs.len() as int);
        lemma_view_list(tail);
        assert(view_list(vs) == seq![vs[0]@] + view_list(tail));
        assert forall|i: int| 0 <= i < vs.len() implies view_list(vs)[i] == #[trigger] vs[i]@ by {
            if i >= 1 {
                assert(tail[i - 1] == vs[i]);
            }
        }
    }
}

/// True of the type codes of the basic (non-container) types.
pub open spec fn is_basic_code(c: u8) -> bool {
    ||| c == T_BYTE
    ||| c == T_BOOL
    ||| c == T_I16
    ||| c == T_U16
    ||| c == T_I32
    ||| c == T_U32
    ||| c == T_I64
    ||| c == T_U64
    ||| c == T_F64
    ||| c == T_STR
    ||| c == T_PATH
    ||| c == T_SIG
    ||| c == T_FD
}

/// Natural alignment of the type whose signature starts with this code.
pub open spec fn align_of_code(c: u8) -> int {
    if c == T_BYTE || c == T_SIG || c == T_VAR {
        1
    } else if c == T_I16 || c == T_U16 {
        2
    } else if c == T_BOOL || c == T_I32 || c == T_U32 || c == T_STR || c == T_PATH || c == T_ARR
        || c == T_FD {
        4
    } else if c == T_I64 || c == T_U64 || c == T_F64 || c == T_SOPEN || c == T_DOPEN {
        8
    } else {
        1
    }
}

/// End position (exclusive) of the single complete type starting at `i`
/// in signature `sig`, or -1 if no complete type starts there.
pub open spec fn type_end(sig: Seq<u8>, i: int) -> int
    decreases sig.len() - i, 0int,
{
    if i < 0 || i >= sig.len() {
        -1
    } else if is_basic_code(sig[i]) || sig[i] == T_VAR {
        i + 1
    } else if sig[i] == T_ARR {
        type_end(sig, i + 1)
    } else if sig[i] == T_SOPEN {
        struct_end(sig, i + 1)
    } else if sig[i] == T_DOPEN {
        if i + 1 < sig.len() && is_basic_code(sig[i + 1]) {
            let ve = type_end(sig, i + 2);
            if 0 <= ve && ve < sig.len() && sig[ve] == T_DCLOSE {
                ve + 1
            } else {
                -1
            }
        } else {
            -1
        }
    } else {
        -1
    }
}

/// End position (exclusive, past the closing parenthesis) of the remainder
/// of a struct signature: one or more complete types then `)`.
pub open spec fn struct_end(sig: Seq<u8>, i: int) -> int
    decreases sig.len() - i, 1int,
{
    if i < 0 || i >= sig.len() || sig[i] == T_SCLOSE {
        -1
    } else {
        let te = type_end(sig, i);
        if te > i && te < sig.len() {
            if sig[te] == T_SCLOSE {
                te + 1
            } else {
                struct_end(sig, te)
            }
        } else {
            -1
        }
    }
}

/// A complete type found by `type_end` ends after where it starts and
/// within the signature.
pub proof fn lemma_type_end_bounds(sig: Seq<u8>, i: int)
    ensures
        type_end(sig, i) != -1 ==> i < type_end(sig, i) <= sig.len(),
    decreases sig.len() - i, 0int,
{
    if 0 <= i < sig.len() {
        if sig[i] == T_ARR {
            lemma_type_end_bounds(sig, i + 1);
        } else if sig[i] == T_SOPEN {
            lemma_struct_end_bounds(sig, i + 1);
        } else if sig[i] == T_DOPEN {
            if i + 1 < sig.len() && is_basic_code(sig[i + 1]) {
                lemma_type_end_bounds(sig, i + 2);
            }
        }
    }
}

/// The remainder of a struct signature found by `struct_end` ends after
/// where it starts and within the signature.
pub proof fn lemma_struct_end_bounds(sig: Seq<u8>, i: int)
    ensures
        struct_end(sig, i) != -1 ==> i < struct_end(sig, i) <= sig.len(),
    decreases sig.len() - i, 1int,
{
    if 0 <= i < sig.len() && sig[i] != T_SCLOSE {
        lemma_type_end_bounds(sig, i);
        let te = type_end(sig, i);
        if te > i && te < sig.len() && sig[te] != T_SCLOSE {
            lemma_struct_end_bounds(sig, te);
        }
    }
}

/// True when `sig[i..]` is a sequence of zero or more complete types.
pub open spec fn types_to_end(sig: Seq<u8>, i: int) -> bool
    decreases sig.len() - i,
{
    if i == sig.len() {
        true
    } else {
        let te = type_end(sig, i);
        if i < te <= sig.len() {
            types_to_end(sig, te)
        } else {
            false
        }
    }
}

/// A syntactically valid signature string: at most 255 bytes, a sequence of
/// complete types.
pub open spec fn valid_sig_string(sig: Seq<u8>) -> bool {
    sig.len() <= 255 && types_to_end(sig, 0)
}

/// True of bytes allowed inside an object-path segment.
pub open spec fn is_path_char(c: u8) -> bool {
    ||| 65u8 <= c <= 90u8
    ||| 97u8 <= c <= 122u8
    ||| 48u8 <= c <= 57u8
    ||| c == 95u8
}

/// The object-path grammar: `/`-separated non-empty segments of
/// `[A-Za-z0-9_]`, starting with `/`, with no trailing `/` except the root.
pub open spec fn valid_path(p: Seq<u8>) -> bool {
    &&& p.len() >= 1
    &&& p.len() < 0x1_0000_0000
    &&& p[0] == 47u8
    &&& (p.len() == 1 || p[p.len() - 1] != 47u8)
    &&& forall|i: int|
        1 <= i < p.len() ==> (is_path_char(#[trigger] p[i]) || (p[i] == 47u8 && p[i - 1]
            != 47u8))
}

/// The type signature of a value: one complete type per the D-Bus grammar.
pub open spec fn sig_of(v: Val) -> Seq<u8>
    decreases v,
{
    match v {
        Val::Byte(_) => seq![T_BYTE],
        Val::Bool(_) => seq![T_BOOL],
        Val::I16(_) => seq![T_I16],
        Val::U16(_) => seq![T_U16],
        Val::I32(_) => seq![T_I32],
        Val::U32(_) => seq![T_U32],
        Val::I64(_) => seq![T_I64],
        Val::U64(_) => seq![T_U64],
        Val::F64Bits(_) => seq![T_F64],
        Val::Str(_) => seq![T_STR],
        Val::Path(_) => seq![T_PATH],
        Val::Sig(_) => seq![T_SIG],
        Val::Arr { esig, .. } => seq![T_ARR] + esig,
        Val::Struct { fields } => seq![T_SOPEN] + sigs_of(fields) + seq![T_SCLOSE],
        Val::Dict { key, val } => seq![T_DOPEN] + sig_of(*key) + sig_of(*val) + seq![T_DCLOSE],
        Val::Var { .. } => seq![T_VAR],
        Val::Fd(_) => seq![T_FD],
    }
}

/// The concatenated signatures of a sequence of values.
pub open spec fn sigs_of(vs: Seq<Val>) -> Seq<u8>
    decreases vs,
{
    if vs.len() == 0 {
        Seq::empty()
    } else {
        sig_of(vs[0]) + sigs_of(vs.subrange(1, vs.len() as int))
    }
}

/// A well-formed value: its strings fit their length prefixes, its object
/// paths and signatures obey their grammars, every array element carries
/// exactly the array's element signature, structs are non-empty, and
/// dict-entry keys are basic.
pub open spec fn valid(v: Val) -> bool
    decreases v,
{
    match v {
        Val::Str(s) => vstd::utf8::encode_utf8(s).len() < 0x1_0000_0000,
        Val::Path(p) => valid_path(p),
        Val::Sig(g) => valid_sig_string(g),
        Val::Arr { esig, elems } => {
            &&& type_end(esig, 0) == esig.len()
            &&& esig.len() <= 254
            &&& valid_elems(elems, esig)
        },
        Val::Struct { fields } => fields.len() >= 1 && valid_list(fields),
        Val::Dict { key, val } => {
            &&& sig_of(*key).len() == 1
            &&& is_basic_code(sig_of(*key)[0])
            &&& valid(*key)
            &&& valid(*val)
        },
        Val::Var { inner } => valid(*inner) && sig_of(*inner).len() <= 255,
        _ => true,
    }
}

/// Every element is well formed and has exactly the element signature.
pub open spec fn valid_elems(vs: Seq<Val>, esig: Seq<u8>) -> bool
    decreases vs,
{
    if vs.len() == 0 {
        true
    } else {
        valid(vs[0]) && sig_of(vs[0]) == esig && valid_elems(
            vs.subrange(1, vs.len() as int),
            esig,
        )
    }
}

/// Every value in the sequence is well formed.
pub open spec fn valid_list(vs: Seq<Val>) -> bool
    decreases vs,
{
    if vs.len() == 0 {
        true
    } else {
        valid(vs[0]) && valid_list(vs.subrange(1, vs.len() as int))
    }
}

/// Appending one value appends its signature.
pub proof fn lemma_sigs_of_push(vs: Seq<Val>, x: Val)
    ensures
        sigs_of(vs.push(x)) == sigs_of(vs) + sig_of(x),
    decreases vs.len(),
{
    if vs.len() == 0 {
        assert(vs.push(x)[0] == x);
        assert(vs.push(x).subrange(1, 1) =~= Seq::<Val>::empty());
        assert(sigs_of(vs.push(x)) == sig_of(x) + sigs_of(Seq::<Val>::empty()));
        assert(sigs_of(vs.push(x)) =~= sigs_of(vs) + sig_of(x));
    } else {
        let tail = vs.subrange(1, vs.len() as int);
        lemma_sigs_of_push(tail, x);
        assert(vs.push(x)[0] == vs[0]);
        assert(vs.push(x).subrange(1, vs.len() as int + 1) =~= tail.push(x));
        assert(sigs_of(vs.push(x)) == sig_of(vs[0]) + sigs_of(tail.push(x)));
        assert(sigs_of(vs) == sig_of(vs[0]) + sigs_of(tail));
        assert(sigs_of(vs.push(x)) =~= sigs_of(vs) + sig_of(x));
    }
}

/// Each element of a well-formed element list is well formed and carries
/// the element signature.
pub proof fn lemma_valid_elems_index(vs: Seq<Val>, esig: Seq<u8>)
    requires
        valid_elems(vs, esig),
    ensures
        forall|i: int|
            0 <= i < vs.len() ==> valid(#[trigger] vs[i]) && sig_of(vs[i]) == esig,
    decreases vs.len(),
{
    if vs.len() > 0 {
        let tail = vs.subrange(1, vs.len() as int);
        lemma_valid_elems_index(tail, esig);
        assert forall|i: int| 0 <= i < vs.len() implies valid(#[trigger] vs[i]) && sig_of(
            vs[i],
        ) == esig by {
            if i >= 1 {
                assert(tail[i - 1] == vs[i]);
            }
        }
    }
}

/// Each value of a well-formed list is well formed.
pub proof fn lemma_valid_list_index(vs: Seq<Val>)
    requires
        valid_list(vs),
    ensures
        forall|i: int| 0 <= i < vs.len() ==> valid(#[trigger] vs[i]),
    decreases vs.len(),
{
    if vs.len() > 0 {
        let tail = vs.subrange(1, vs.len() as int);
        lemma_valid_list_index(tail);
        assert forall|i: int| 0 <= i < vs.len() implies valid(#[trigger] vs[i]) by {
            if i >= 1 {
                assert(tail[i - 1] == vs[i]);
            }
        }
    }
}

/// A sequence whose values are all well formed with signature `esig` is a
/// well-formed element list.
pub proof fn lemma_valid_elems_build(vs: Seq<Val>, esig: Seq<u8>)
    requires
        forall|i: int| 0 <= i < vs.len() ==> valid(#[trigger] vs[i]) && sig_of(vs[i]) == esig,
    ensures
        valid_elems(vs, esig),
    decreases vs.len(),
{
    if vs.len() > 0 {
        let tail = vs.subrange(1, vs.len() as int);
        assert forall|i: int| 0 <= i < tail.len() implies valid(#[trigger] tail[i]) && sig_of(
            tail[i],
        ) == esig by {
            assert(tail[i] == vs[i + 1]);
        }
        lemma_valid_elems_build(tail, esig);
    }
}

/// Natural alignment of the type whose signature starts with this code.
pub fn align_code(c: u8) -> (a: usize)
    ensures
        a == align_of_code(c),
        1 <= a <= 8,
{
    if c == T_BYTE || c == T_SIG || c == T_VAR {
        1
    } else if c == T_I16 || c == T_U16 {
        2
    } else if c == T_BOOL || c == T_I32 || c == T_U32 || c == T_STR || c == T_PATH || c == T_ARR
        || c == T_FD {
        4
    } else if c == T_I64 || c == T_U64 || c == T_F64 || c == T_SOPEN || c == T_DOPEN {
        8
    } else {
        1
    }
}

impl Variant {
    /// Derive the type signature of this value.
    pub fn signature(&self) -> (r: Vec<u8>)
        ensures
            r@ == sig_of(self@),
        decreases self,
    {
        match self {
            Variant::Byte(_) => one_code(T_BYTE),
            Variant::Boolean(_) => one_code(T_BOOL),
            Variant::I16(_) => one_code(T_I16),
            Variant::U16(_) => one_code(T_U16),
            Variant::I32(_) => one_code(T_I32),
            Variant::U32(_) => one_code(T_U32),
            Variant::I64(_) => one_code(T_I64),
            Variant::U64(_) => one_code(T_U64),
            Variant::F64Bits(_) => one_code(T_F64),
            Variant::Str(_) => one_code(T_STR),
            Variant::ObjectPath(_) => one_code(T_PATH),
            Variant::Signature(_) => one_code(T_SIG),
            Variant::Array { element_signature, .. } => {
                let mut r = one_code(T_ARR);
                r.extend_from_slice(element_signature.as_slice());
                assert(r@ =~= sig_of(self@));
                r
            },
            Variant::Tuple { elements } => {
                let mut r = one_code(T_SOPEN);
                let inner = sig_concat(elements);
                r.extend_from_slice(inner.as_slice());
                r.push(T_SCLOSE);
                assert(r@ =~= sig_of(self@));
                r
            },
            Variant::DictEntry { key, value } => {
                let mut r = one_code(T_DOPEN);
                let ks = key.signature();
                let ws = value.signature();
                r.extend_from_slice(ks.as_slice());
                r.extend_from_slice(ws.as_slice());
                r.push(T_DCLOSE);
                assert(r@ =~= sig_of(self@));
                r
            },
            Variant::VariantValue(_) => one_code(T_VAR),
            Variant::UnixFd(_) => one_code(T_FD),
        }
    }
}

/// The concatenated signatures of the values in the vector.
pub fn sig_concat(vs: &Vec<Variant>) -> (r: Vec<u8>)
    ensures
        r@ == sigs_of(view_list(vs@)),
    decreases vs@,
{
    let ghost ws = view_list(vs@);
    proof {
        lemma_view_list(vs@);
    }
    let mut r: Vec<u8> = Vec::new();
    let mut i: usize = 0;
    while i < vs.len()
        invariant
            i <= vs@.len(),
            ws == view_list(vs@),
            ws.len() == vs@.len(),
            forall|j: int| 0 <= j < ws.len() ==> ws[j] == #[trigger] vs@[j]@,
            r@ == sigs_of(ws.take(i as int)),
        decreases vs@.len() - i,
    {
        let s = vs[i].signature();
        r.extend_from_slice(s.as_slice());
        proof {
            lemma_sigs_of_push(ws.take(i as int), ws[i as int]);
            assert(ws.take(i + 1) =~= ws.take(i as int).push(ws[i as int]));
        }
        i = i + 1;
    }
    proof {
        assert(ws.take(ws.len() as int) =~= ws);
    }
    r
}

/// A one-byte signature.
fn one_code(c: u8) -> (r: Vec<u8>)
    ensures
        r@ == seq![c],
{
    let mut r: Vec<u8> = Vec::new();
    r.push(c);
    assert(r@ =~= seq![c]);
    r
}

} // verus!
