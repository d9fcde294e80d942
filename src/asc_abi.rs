//! Marshaling between host values and the guest's linear memory.
//!
//! A value in guest memory starts with a one-byte tag. Integers follow as
//! four little-endian bytes, byte arrays as a four-byte little-endian length
//! and then the bytes, and wide integers as exactly `WIDE_INT_BYTES`
//! big-endian bytes (two's complement for the signed kind). Every read is
//! bounds-checked against the memory as it stands.
use vstd::prelude::*;
use vstd::string::*;
use vstd::utf8::*;

verus! {

pub const TAG_NULL: u8 = 0;
pub const TAG_BOOL: u8 = 1;
pub const TAG_U32: u8 = 2;
pub const TAG_I32: u8 = 3;
pub const TAG_BYTES: u8 = 4;
pub const TAG_UNSIGNED_WIDE: u8 = 5;
pub const TAG_SIGNED_WIDE: u8 = 6;
pub const TAG_STRING: u8 = 7;
pub const TAG_ARRAY: u8 = 8;

/// Width in bytes of a wide (256-bit) integer.
pub const WIDE_INT_BYTES: usize = 32;

/// Largest size of guest memory: a 32-bit address space.
pub const MAX_MEMORY: u64 = 0xffff_ffff;

/// A fault that ends the current guest invocation.
#[derive(Debug, PartialEq, Eq)]
pub enum Trap {
    /// The fuel budget or the memory limit was exceeded.
    OutOfResource,
    /// A read would leave guest memory.
    MemoryOutOfBounds,
    /// The module was built for an incompatible host interface version.
    AbiVersionMismatch,
    /// The guest handed over a malformed value or faulted on its own.
    GuestFault,
    /// A host export failed; the message says why.
    HostExportFailure(String),
}

/// A host-native value that crosses the sandbox boundary.
#[derive(Debug, PartialEq, Eq)]
pub enum AbiValue {
    Null,
    Bool(bool),
    U32(u32),
    I32(i32),
    Bytes(Vec<u8>),
    /// Text, stored in guest memory as length-prefixed UTF-8.
    Str(String),
    /// An array, as the guest offsets of its elements in order.
    Array(Vec<u32>),
    /// A 256-bit unsigned integer, big-endian.
    UnsignedWide(Vec<u8>),
    /// A 256-bit signed integer, big-endian two's complement.
    SignedWide(Vec<u8>),
}

/// The mathematical content of an `AbiValue`.
pub enum ValueModel {
    Null,
    Bool(bool),
    U32(u32),
    I32(i32),
    Bytes(Seq<u8>),
    Str(Seq<char>),
    Array(Seq<u32>),
    UnsignedWide(Seq<u8>),
    SignedWide(Seq<u8>),
}

impl View for AbiValue {
    type V = ValueModel;

    open spec fn view(&self) -> ValueModel {
        match self {
            AbiValue::Null => ValueModel::Null,
            AbiValue::Bool(b) => ValueModel::Bool(*b),
            AbiValue::U32(x) => ValueModel::U32(*x),
            AbiValue::I32(x) => ValueModel::I32(*x),
            AbiValue::Bytes(b) => ValueModel::Bytes(b@),
            AbiValue::Str(t) => ValueModel::Str(t@),
            AbiValue::Array(a) => ValueModel::Array(a@),
            AbiValue::UnsignedWide(b) => ValueModel::UnsignedWide(b@),
            AbiValue::SignedWide(b) => ValueModel::SignedWide(b@),
        }
    }
}

/// Wide integers have exactly `WIDE_INT_BYTES` bytes.
pub open spec fn value_wf(v: ValueModel) -> bool {
    match v {
        ValueModel::UnsignedWide(b) => b.len() == WIDE_INT_BYTES,
        ValueModel::SignedWide(b) => b.len() == WIDE_INT_BYTES,
        _ => true,
    }
}

/// The four little-endian bytes of `x`.
pub open spec fn le_bytes(x: u32) -> Seq<u8> {
    seq![
        (x & 0xff) as u8,
        ((x >> 8u32) & 0xff) as u8,
        ((x >> 16u32) & 0xff) as u8,
        ((x >> 24u32) & 0xff) as u8,
    ]
}

/// The `u32` whose little-endian bytes are `b0`, `b1`, `b2`, `b3`.
pub open spec fn le_value(b0: u8, b1: u8, b2: u8, b3: u8) -> u32 {
    (b0 as u32) | ((b1 as u32) << 8u32) | ((b2 as u32) << 16u32) | ((b3 as u32) << 24u32)
}

/// The `u32` stored little-endian at `m[p..p + 4]`.
pub open spec fn read_le(m: Seq<u8>, p: int) -> u32 {
    le_value(m[p], m[p + 1], m[p + 2], m[p + 3])
}

/// The words of `s`, each as four little-endian bytes, one after another.
pub open spec fn le_words(s: Seq<u32>) -> Seq<u8> {
    Seq::new((4 * s.len()) as nat, |k: int| le_bytes(s[k / 4])[k % 4])
}

/// The `n` words stored little-endian from offset `p` of `m` on.
pub open spec fn read_words(m: Seq<u8>, p: int, n: int) -> Seq<u32> {
    Seq::new(n as nat, |i: int| read_le(m, p + 4 * i))
}

/// The bytes that represent `v` in guest memory.
pub open spec fn encoding(v: ValueModel) -> Seq<u8> {
    match v {
        ValueModel::Null => seq![TAG_NULL],
        ValueModel::Bool(b) => seq![TAG_BOOL, if b { 1u8 } else { 0u8 }],
        ValueModel::U32(x) => seq![TAG_U32] + le_bytes(x),
        ValueModel::I32(x) => seq![TAG_I32] + le_bytes(x as u32),
        ValueModel::Bytes(b) => seq![TAG_BYTES] + le_bytes(b.len() as u32) + b,
        ValueModel::Str(t) => seq![TAG_STRING] + le_bytes(encode_utf8(t).len() as u32)
            + encode_utf8(t),
        ValueModel::Array(a) => seq![TAG_ARRAY] + le_bytes(a.len() as u32) + le_words(a),
        ValueModel::UnsignedWide(b) => seq![TAG_UNSIGNED_WIDE] + b,
        ValueModel::SignedWide(b) => seq![TAG_SIGNED_WIDE] + b,
    }
}

/// What decoding the value at offset `p` of memory `m` yields.
pub open spec fn decoded(m: Seq<u8>, p: int) -> Result<ValueModel, Trap> {
    if p < 0 || p >= m.len() {
        Err(Trap::MemoryOutOfBounds)
    } else {
        let tag = m[p];
        if tag == TAG_NULL {
            Ok(ValueModel::Null)
        } else if tag == TAG_BOOL {
            if p + 2 > m.len() {
                Err(Trap::MemoryOutOfBounds)
            } else if m[p + 1] == 0 {
                Ok(ValueModel::Bool(false))
            } else if m[p + 1] == 1 {
                Ok(ValueModel::Bool(true))
            } else {
                Err(Trap::GuestFault)
            }
        } else if tag == TAG_U32 || tag == TAG_I32 {
            if p + 5 > m.len() {
                Err(Trap::MemoryOutOfBounds)
            } else if tag == TAG_U32 {
                Ok(ValueModel::U32(read_le(m, p + 1)))
            } else {
                Ok(ValueModel::I32(read_le(m, p + 1) as i32))
            }
        } else if tag == TAG_BYTES || tag == TAG_STRING {
            if p + 5 > m.len() || p + 5 + read_le(m, p + 1) > m.len() {
                Err(Trap::MemoryOutOfBounds)
            } else if tag == TAG_BYTES {
                Ok(ValueModel::Bytes(m.subrange(p + 5, p + 5 + read_le(m, p + 1))))
            } else if valid_utf8(m.subrange(p + 5, p + 5 + read_le(m, p + 1))) {
                Ok(ValueModel::Str(decode_utf8(m.subrange(p + 5, p + 5 + read_le(m, p + 1)))))
            } else {
                Err(Trap::GuestFault)
            }
        } else if tag == TAG_ARRAY {
            if p + 5 > m.len() || p + 5 + 4 * read_le(m, p + 1) > m.len() {
                Err(Trap::MemoryOutOfBounds)
            } else {
                Ok(ValueModel::Array(read_words(m, p + 5, read_le(m, p + 1) as int)))
            }
        } else if tag == TAG_UNSIGNED_WIDE || tag == TAG_SIGNED_WIDE {
            if p + 1 + WIDE_INT_BYTES > m.len() {
                Err(Trap::MemoryOutOfBounds)
            } else if tag == TAG_UNSIGNED_WIDE {
                Ok(ValueModel::UnsignedWide(m.subrange(p + 1, p + 1 + WIDE_INT_BYTES)))
            } else {
                Ok(ValueModel::SignedWide(m.subrange(p + 1, p + 1 + WIDE_INT_BYTES)))
            }
        } else {
            Err(Trap::GuestFault)
        }
    }

}

proof fn lemma_le_round_trip(x: u32)
    ensures
        le_value(
            (x & 0xff) as u8,
            ((x >> 8u32) & 0xff) as u8,
            ((x >> 16u32) & 0xff) as u8,
            ((x >> 24u32) & 0xff) as u8,
        ) == x,
{
    assert((((x & 0xff) as u8) as u32) | (((((x >> 8u32) & 0xff) as u8) as u32) << 8u32) | (
    ((((x >> 16u32) & 0xff) as u8) as u32) << 16u32) | (((((x >> 24u32) & 0xff) as u8) as u32)
        << 24u32) == x) by (bit_vector);
}

proof fn lemma_le_bytes_of_value(b0: u8, b1: u8, b2: u8, b3: u8)
    ensures
        le_bytes(le_value(b0, b1, b2, b3)) == seq![b0, b1, b2, b3],
{
    let x = le_value(b0, b1, b2, b3);
    assert(((((b0 as u32) | ((b1 as u32) << 8u32) | ((b2 as u32) << 16u32) | ((b3 as u32)
        << 24u32)) & 0xff) as u8) == b0) by (bit_vector);
    assert((((((b0 as u32) | ((b1 as u32) << 8u32) | ((b2 as u32) << 16u32) | ((b3 as u32)
        << 24u32)) >> 8u32) & 0xff) as u8) == b1) by (bit_vector);
    assert((((((b0 as u32) | ((b1 as u32) << 8u32) | ((b2 as u32) << 16u32) | ((b3 as u32)
        << 24u32)) >> 16u32) & 0xff) as u8) == b2) by (bit_vector);
    assert((((((b0 as u32) | ((b1 as u32) << 8u32) | ((b2 as u32) << 16u32) | ((b3 as u32)
        << 24u32)) >> 24u32) & 0xff) as u8) == b3) by (bit_vector);
    assert(le_bytes(x) =~= seq![b0, b1, b2, b3]);
}

proof fn lemma_i32_u32_round_trip(x: i32, u: u32)
    ensures
        (x as u32) as i32 == x,
        (u as i32) as u32 == u,
{
    assert((x as u32) as i32 == x) by (bit_vector);
    assert((u as i32) as u32 == u) by (bit_vector);
}

proof fn lemma_le_words_push(s: Seq<u32>, x: u32)
    ensures
        le_words(s.push(x)) == le_words(s) + le_bytes(x),
        le_words(s).len() == 4 * s.len(),
{
    let n = s.len() as int;
    assert forall|k: int| 0 <= k < 4 * (n + 1) implies le_words(s.push(x))[k] == (le_words(s)
        + le_bytes(x))[k] by {
        if k < 4 * n {
            assert(k / 4 < n);
        } else {
            assert(k / 4 == n && k % 4 == k - 4 * n);
        }
    }
    assert(le_words(s.push(x)) =~= le_words(s) + le_bytes(x));
}

/// Decoding a value right after it was appended to memory gives the value
/// back, for every kind of value, wide-integer extremes included.
pub proof fn lemma_decode_encode(m: Seq<u8>, v: ValueModel)
    requires
        value_wf(v),
        m.len() + encoding(v).len() <= MAX_MEMORY,
    ensures
        decoded(m + encoding(v), m.len() as int) == Ok::<ValueModel, Trap>(v),
{
    let e = encoding(v);
    let mm = m + e;
    let p = m.len() as int;
    assert(mm[p] == e[0]);
    match v {
        ValueModel::U32(x) => {
            lemma_le_round_trip(x);
            assert(mm.subrange(p + 1, p + 5) =~= le_bytes(x));
            assert(mm[p + 1] == le_bytes(x)[0] && mm[p + 2] == le_bytes(x)[1]
                && mm[p + 3] == le_bytes(x)[2] && mm[p + 4] == le_bytes(x)[3]);
        },
        ValueModel::I32(x) => {
            lemma_le_round_trip(x as u32);
            lemma_i32_u32_round_trip(x, x as u32);
            let l = le_bytes(x as u32);
            assert(mm[p + 1] == l[0] && mm[p + 2] == l[1] && mm[p + 3] == l[2] && mm[p + 4] == l[3]);
        },
        ValueModel::Bool(b) => {
            assert(mm[p + 1] == e[1]);
        },
        ValueModel::Bytes(b) => {
            let n = b.len() as u32;
            lemma_le_round_trip(n);
            let l = le_bytes(n);
            assert(mm[p + 1] == l[0] && mm[p + 2] == l[1] && mm[p + 3] == l[2] && mm[p + 4] == l[3]);
            assert(read_le(mm, p + 1) == b.len());
            assert(mm.subrange(p + 5, p + 5 + b.len()) =~= b);
        },
        ValueModel::Str(t) => {
            let b = encode_utf8(t);
            let n = b.len() as u32;
            lemma_le_round_trip(n);
            let l = le_bytes(n);
            assert(mm[p + 1] == l[0] && mm[p + 2] == l[1] && mm[p + 3] == l[2] && mm[p + 4] == l[3]);
            assert(read_le(mm, p + 1) == b.len());
            assert(mm.subrange(p + 5, p + 5 + b.len()) =~= b);
            encode_utf8_valid_utf8(t);
            encode_utf8_decode_utf8(t);
        },
        ValueModel::Array(a) => {
            let n = a.len() as u32;
            lemma_le_round_trip(n);
            let l = le_bytes(n);
            assert(mm[p + 1] == l[0] && mm[p + 2] == l[1] && mm[p + 3] == l[2] && mm[p + 4] == l[3]);
            assert(read_le(mm, p + 1) == a.len());
            let w = le_words(a);
            assert forall|i: int| 0 <= i < a.len() implies read_le(mm, p + 5 + 4 * i) == a[i] by {
                lemma_le_round_trip(a[i]);
                assert((4 * i) / 4 == i && (4 * i + 1) / 4 == i && (4 * i + 2) / 4 == i && (4 * i
                    + 3) / 4 == i);
                assert((4 * i) % 4 == 0 && (4 * i + 1) % 4 == 1 && (4 * i + 2) % 4 == 2 && (4 * i
                    + 3) % 4 == 3);
                assert(mm[p + 5 + 4 * i] == w[4 * i] && mm[p + 5 + 4 * i + 1] == w[4 * i + 1]
                    && mm[p + 5 + 4 * i + 2] == w[4 * i + 2] && mm[p + 5 + 4 * i + 3] == w[4 * i
                    + 3]);
            }
            assert(read_words(mm, p + 5, a.len() as int) =~= a);
        },
        ValueModel::UnsignedWide(b) => {
            assert(mm.subrange(p + 1, p + 1 + WIDE_INT_BYTES) =~= b);
        },
        ValueModel::SignedWide(b) => {
            assert(mm.subrange(p + 1, p + 1 + WIDE_INT_BYTES) =~= b);
        },
        ValueModel::Null => {},
    }
}

/// Decoding never looks outside memory: an offset outside memory fails with
/// `MemoryOutOfBounds`; a decoded value is exactly the bytes of its region,
/// which lies inside memory; and with memory cut anywhere inside that
/// region, the same decode fails with `MemoryOutOfBounds`.
pub proof fn lemma_decode_in_bounds(m: Seq<u8>, p: int)
    ensures
        p < 0 || p >= m.len() ==> decoded(m, p) == Err::<ValueModel, Trap>(Trap::MemoryOutOfBounds),
        decoded(m, p) is Ok ==> ({
            let e = encoding(decoded(m, p)->Ok_0);
            &&& p + e.len() <= m.len()
            &&& m.subrange(p, p + e.len()) == e
            &&& forall|c: int|
                p <= c < p + e.len() ==> decoded(m.take(c), p) == Err::<ValueModel, Trap>(
                    Trap::MemoryOutOfBounds,
                )
        }),
{
    if decoded(m, p) is Ok {
        let v = decoded(m, p)->Ok_0;
        let e = encoding(v);
        let tag = m[p];
        if tag == TAG_STRING {
            decode_utf8_encode_utf8(m.subrange(p + 5, p + 5 + read_le(m, p + 1)));
        }
        if tag == TAG_ARRAY {
            let n = read_le(m, p + 1) as int;
            let w = read_words(m, p + 5, n);
            assert forall|k: int| 0 <= k < 4 * n implies le_words(w)[k] == m[p + 5 + k] by {
                let i = k / 4;
                assert(0 <= i < n && 4 * i <= k < 4 * i + 4);
                lemma_le_bytes_of_value(
                    m[p + 5 + 4 * i],
                    m[p + 5 + 4 * i + 1],
                    m[p + 5 + 4 * i + 2],
                    m[p + 5 + 4 * i + 3],
                );
            }
            assert(le_words(w) =~= m.subrange(p + 5, p + 5 + 4 * n));
        }
        if tag == TAG_U32 || tag == TAG_I32 || tag == TAG_BYTES || tag == TAG_STRING || tag
            == TAG_ARRAY {
            lemma_le_bytes_of_value(m[p + 1], m[p + 2], m[p + 3], m[p + 4]);
            let u = read_le(m, p + 1);
            lemma_i32_u32_round_trip(u as i32, u);
            assert(le_bytes(u) =~= m.subrange(p + 1, p + 5));
        }
        assert(m.subrange(p, p + e.len()) =~= e);
        assert forall|c: int| p <= c < p + e.len() implies decoded(m.take(c), p)
            == Err::<ValueModel, Trap>(Trap::MemoryOutOfBounds) by {
            let t = m.take(c);
            if c > p {
                assert(t[p] == m[p]);
            }
            if (tag == TAG_BYTES || tag == TAG_STRING || tag == TAG_ARRAY) && c >= p + 5 {
                assert(t[p + 1] == m[p + 1] && t[p + 2] == m[p + 2] && t[p + 3] == m[p + 3]
                    && t[p + 4] == m[p + 4]);
            }
        }
    }
}

/// The number whose big-endian bytes are `b`.
pub open spec fn be_value(b: Seq<u8>) -> nat
    decreases b.len(),
{
    if b.len() == 0 {
        0
    } else {
        (be_value(b.drop_last()) * 256 + b.last()) as nat
    }
}

/// `256` to the power `n`.
pub open spec fn pow256(n: nat) -> nat
    decreases n,
{
    if n == 0 {
        1
    } else {
        256 * pow256((n - 1) as nat)
    }
}

proof fn lemma_be_value_prepend(x: u8, b: Seq<u8>)
    ensures
        be_value(seq![x] + b) == x * pow256(b.len()) + be_value(b),
    decreases b.len(),
{
    let c = seq![x] + b;
    if b.len() == 0 {
        assert(c.drop_last() =~= Seq::<u8>::empty());
        assert(c.last() == x);
        assert(be_value(Seq::<u8>::empty()) == 0);
        assert(pow256(0) == 1);
        assert(x * pow256(0) == x);
    } else {
        assert(c.drop_last() =~= seq![x] + b.drop_last());
        assert(c.last() == b.last());
        lemma_be_value_prepend(x, b.drop_last());
        let p = pow256(b.drop_last().len());
        assert(pow256(b.len()) == 256 * p);
        assert((x * p + be_value(b.drop_last())) * 256 + b.last() == x * (256 * p) + (be_value(
            b.drop_last(),
        ) * 256 + b.last())) by (nonlinear_arith);
    }
}

/// The value of the 256-bit two's-complement integer `b`: negative when
/// the top bit of its first byte is set.
pub open spec fn signed_value(b: Seq<u8>) -> int {
    if b.len() > 0 && b[0] >= 128 {
        be_value(b) - pow256(b.len())
    } else {
        be_value(b) as int
    }
}

/// Every byte of `b` with its bits flipped.
pub open spec fn complement(b: Seq<u8>) -> Seq<u8> {
    b.map_values(|x: u8| (255 - x) as u8)
}

proof fn lemma_be_value_bound(b: Seq<u8>)
    ensures
        be_value(b) < pow256(b.len()),
    decreases b.len(),
{
    if b.len() > 0 {
        lemma_be_value_bound(b.drop_last());
        let p = pow256(b.drop_last().len());
        assert(pow256(b.len()) == 256 * p);
        assert(be_value(b.drop_last()) * 256 + b.last() < 256 * p) by (nonlinear_arith)
            requires
                be_value(b.drop_last()) < p,
                b.last() <= 255,
        ;
    } else {
        assert(pow256(0) == 1);
    }
}

proof fn lemma_sign_byte(b: Seq<u8>)
    requires
        b.len() > 0,
    ensures
        (b[0] >= 128) == (be_value(b) >= 128 * pow256((b.len() - 1) as nat)),
{
    let rest = b.drop_first();
    assert(b =~= seq![b[0]] + rest);
    lemma_be_value_prepend(b[0], rest);
    lemma_be_value_bound(rest);
    let h = pow256(rest.len());
    let b0 = b[0];
    assert((b0 >= 128) == (b0 * h + be_value(rest) >= 128 * h)) by (nonlinear_arith)
        requires
            be_value(rest) < h,
            0 <= b0 <= 255,
    ;
}

proof fn lemma_complement_value(b: Seq<u8>)
    ensures
        be_value(complement(b)) + be_value(b) == pow256(b.len()) - 1,
    decreases b.len(),
{
    let c = complement(b);
    if b.len() == 0 {
        assert(pow256(0) == 1);
    } else {
        assert(c.drop_last() =~= complement(b.drop_last()));
        lemma_complement_value(b.drop_last());
        let p = pow256(b.drop_last().len());
        assert(pow256(b.len()) == 256 * p);
        assert(c.last() == 255 - b.last());
        assert((p - 1 - be_value(b.drop_last())) * 256 + (255 - b.last()) + (be_value(b.drop_last())
            * 256 + b.last()) == 256 * p - 1) by (nonlinear_arith);
    }
}

proof fn lemma_pow256_grows(n: nat)
    requires
        n >= 8,
    ensures
        pow256(n) > u64::MAX,
    decreases n,
{
    if n == 8 {
        reveal_with_fuel(pow256, 9);
    } else {
        lemma_pow256_grows((n - 1) as nat);
    }
}

proof fn lemma_be_value_grows(b: Seq<u8>, i: int)
    requires
        0 <= i <= b.len(),
    ensures
        be_value(b.take(i)) <= be_value(b),
    decreases b.len() - i,
{
    if i < b.len() {
        lemma_be_value_grows(b, i + 1);
        assert(b.take(i + 1).drop_last() =~= b.take(i));
    } else {
        assert(b.take(i) =~= b);
    }
}

/// The 256-bit unsigned form of `x`.
pub fn unsigned_wide_from_u64(x: u64) -> (r: Vec<u8>)
    ensures
        r@.len() == WIDE_INT_BYTES,
        be_value(r@) == x,
{
    let mut out: Vec<u8> = Vec::new();
    let mut rest: u64 = x;
    let mut k: usize = 0;
    proof {
        assert(be_value(out@) == 0);
        assert(pow256(0) == 1);
    }
    while k < WIDE_INT_BYTES
        invariant
            k <= WIDE_INT_BYTES,
            out@.len() == k,
            be_value(out@) + rest * pow256(k as nat) == x,
        decreases WIDE_INT_BYTES - k,
    {
        let byte = (rest % 256) as u8;
        let ghost before = out@;
        let ghost old_rest = rest;
        out.insert(0, byte);
        rest = rest / 256;
        k = k + 1;
        proof {
            assert(out@ =~= seq![byte] + before);
            lemma_be_value_prepend(byte, before);
            let p = pow256(before.len());
            assert(pow256(k as nat) == 256 * p);
            assert(old_rest == 256 * rest + byte);
            assert(byte * p + be_value(before) + rest * (256 * p) == be_value(before) + (256 * rest
                + byte) * p) by (nonlinear_arith);
        }
    }
    proof {
        lemma_pow256_grows(32);
        let p = pow256(32);
        assert(rest == 0) by (nonlinear_arith)
            requires
                be_value(out@) + rest * p == x,
                p > u64::MAX,
                x <= u64::MAX,
        ;
    }
    out
}

/// The value of the 256-bit unsigned integer `b` as a `u64`, or `None`
/// when it does not fit: nothing is cut off.
pub fn unsigned_wide_to_u64(b: &Vec<u8>) -> (r: Option<u64>)
    ensures
        be_value(b@) <= u64::MAX ==> r == Some(be_value(b@) as u64),
        be_value(b@) > u64::MAX ==> r is None,
{
    let mut acc: u64 = 0;
    let mut i: usize = 0;
    while i < b.len()
        invariant
            i <= b@.len(),
            acc == be_value(b@.take(i as int)),
        decreases b@.len() - i,
    {
        proof {
            assert(b@.take(i + 1).drop_last() =~= b@.take(i as int));
        }
        if acc > (u64::MAX - b[i] as u64) / 256 {
            proof {
                lemma_be_value_grows(b@, i + 1);
                assert(acc * 256 + b@[i as int] > u64::MAX) by (nonlinear_arith)
                    requires
                        acc > (u64::MAX - b@[i as int]) / 256,
                        b@[i as int] <= 255,
                ;
            }
            return None;
        }
        proof {
            assert(acc * 256 + b@[i as int] <= u64::MAX) by (nonlinear_arith)
                requires
                    acc <= (u64::MAX - b@[i as int]) / 256,
                    b@[i as int] <= 255,
            ;
        }
        acc = acc * 256 + b[i] as u64;
        i = i + 1;
    }
    proof {
        assert(b@.take(b@.len() as int) =~= b@);
    }
    Some(acc)
}

fn complement_bytes(b: &Vec<u8>) -> (r: Vec<u8>)
    ensures
        r@ == complement(b@),
{
    let mut out: Vec<u8> = Vec::new();
    let mut i: usize = 0;
    while i < b.len()
        invariant
            i <= b@.len(),
            out@ == complement(b@.take(i as int)),
        decreases b@.len() - i,
    {
        out.push(255 - b[i]);
        i = i + 1;
        proof {
            assert(out@ =~= complement(b@.take(i as int)));
        }
    }
    proof {
        assert(b@.take(b@.len() as int) =~= b@);
    }
    out
}

/// The 256-bit two's-complement form of `x`.
pub fn signed_wide_from_i64(x: i64) -> (r: Vec<u8>)
    ensures
        r@.len() == WIDE_INT_BYTES,
        signed_value(r@) == x,
{
    proof {
        lemma_pow256_grows(31);
        assert(pow256(32) == 256 * pow256(31));
    }
    if x >= 0 {
        let r = unsigned_wide_from_u64(x as u64);
        proof {
            lemma_sign_byte(r@);
        }
        r
    } else {
        let y = (-(x + 1)) as u64;
        let magnitude = unsigned_wide_from_u64(y);
        let r = complement_bytes(&magnitude);
        proof {
            lemma_complement_value(magnitude@);
            lemma_sign_byte(r@);
        }
        r
    }
}

/// The value of the 256-bit two's-complement integer `b` as an `i64`, or
/// `None` when it does not fit: nothing is cut off.
pub fn signed_wide_to_i64(b: &Vec<u8>) -> (r: Option<i64>)
    requires
        b@.len() == WIDE_INT_BYTES,
    ensures
        i64::MIN <= signed_value(b@) <= i64::MAX ==> r == Some(signed_value(b@) as i64),
        !(i64::MIN <= signed_value(b@) <= i64::MAX) ==> r is None,
{
    proof {
        lemma_sign_byte(b@);
        lemma_complement_value(b@);
        lemma_be_value_bound(b@);
    }
    if b[0] < 128 {
        match unsigned_wide_to_u64(b) {
            Some(v) => if v <= i64::MAX as u64 {
                Some(v as i64)
            } else {
                None
            },
            None => None,
        }
    } else {
        let c = complement_bytes(b);
        match unsigned_wide_to_u64(&c) {
            Some(v) => if v <= i64::MAX as u64 {
                Some(-(v as i64) - 1)
            } else {
                None
            },
            None => None,
        }
    }
}

/// Relies on `String::from_utf8`: it succeeds exactly on valid UTF-8, and
/// the string it returns consists of the given bytes.
#[verifier::external_body]
fn string_from_utf8(bytes: Vec<u8>) -> (r: Option<String>)
    ensures
        r is Some <==> valid_utf8(bytes@),
        r is Some ==> encode_utf8(r->0@) == bytes@,
{
    String::from_utf8(bytes).ok()
}

/// The guest's linear memory.
#[derive(Debug)]
pub struct GuestMemory {
    bytes: Vec<u8>,
}

impl View for GuestMemory {
    type V = Seq<u8>;

    closed spec fn view(&self) -> Seq<u8> {
        self.bytes@
    }
}

impl GuestMemory {
    /// Memory stays within the 32-bit address space.
    pub open spec fn wf(&self) -> bool {
        self@.len() <= MAX_MEMORY
    }

    /// Empty memory.
    pub fn new() -> (r: Self)
        ensures
            r.wf(),
            r@ == Seq::<u8>::empty(),
    {
        GuestMemory { bytes: Vec::new() }
    }

    /// Memory holding `bytes`, when they fit the address space.
    pub fn from_bytes(bytes: Vec<u8>) -> (r: Option<Self>)
        ensures
            match r {
                Some(mem) => bytes@.len() <= MAX_MEMORY && mem@ == bytes@ && mem.wf(),
                None => bytes@.len() > MAX_MEMORY,
            },
    {
        if bytes.len() as u64 > MAX_MEMORY {
            None
        } else {
            Some(GuestMemory { bytes })
        }
    }

    /// Size of the memory in bytes.
    pub fn len(&self) -> (r: usize)
        ensures
            r == self@.len(),
    {
        self.bytes.len()
    }

    /// The byte at `i`, when `i` is inside memory.
    pub fn byte_at(&self, i: u32) -> (r: Result<u8, Trap>)
        ensures
            i < self@.len() ==> r == Ok::<u8, Trap>(self@[i as int]),
            i >= self@.len() ==> r == Err::<u8, Trap>(Trap::MemoryOutOfBounds),
    {
        if (i as usize) < self.bytes.len() {
            Ok(self.bytes[i as usize])
        } else {
            Err(Trap::MemoryOutOfBounds)
        }
    }

    fn read_le_at(&self, p: usize) -> (r: u32)
        requires
            self.wf(),
            p + 4 <= self@.len(),
        ensures
            r == read_le(self@, p as int),
    {
        (self.bytes[p] as u32) | ((self.bytes[p + 1] as u32) << 8u32) | ((self.bytes[p + 2] as u32)
            << 16u32) | ((self.bytes[p + 3] as u32) << 24u32)
    }

    fn read_words_at(&self, start: usize, n: usize) -> (r: Vec<u32>)
        requires
            self.wf(),
            start + 4 * n <= self@.len(),
        ensures
            r@ == read_words(self@, start as int, n as int),
    {
        let mut out: Vec<u32> = Vec::new();
        let mut i: usize = 0;
        while i < n
            invariant
                i <= n,
                self.wf(),
                start + 4 * n <= self@.len(),
                out@ == read_words(self@, start as int, i as int),
            decreases n - i,
        {
            out.push(self.read_le_at(start + 4 * i));
            i = i + 1;
            proof {
                assert(out@ =~= read_words(self@, start as int, i as int));
            }
        }
        out
    }

    fn copy_range(&self, start: usize, len: usize) -> (r: Vec<u8>)
        requires
            self.wf(),
            start + len <= self@.len(),
        ensures
            r@ == self@.subrange(start as int, start + len),
    {
        let mut out: Vec<u8> = Vec::new();
        let mut i: usize = 0;
        while i < len
            invariant
                i <= len,
                self.wf(),
                start + len <= self@.len(),
                out@ == self@.subrange(start as int, start + i),
            decreases len - i,
        {
            out.push(self.bytes[start + i]);
            i = i + 1;
            proof {
                assert(out@ =~= self@.subrange(start as int, start + i));
            }
        }
        out
    }

    /// Reads the value at guest offset `ptr`, checking that every byte it
    /// spans lies inside memory.
    pub fn decode(&self, ptr: u32) -> (r: Result<AbiValue, Trap>)
        requires
            self.wf(),
        ensures
            match r {
                Ok(v) => decoded(self@, ptr as int) == Ok::<ValueModel, Trap>(v@),
                Err(t) => decoded(self@, ptr as int) == Err::<ValueModel, Trap>(t),
            },
    {
        let len = self.bytes.len() as u64;
        let p = ptr as u64;
        if p >= len {
            return Err(Trap::MemoryOutOfBounds);
        }
        let p = ptr as usize;
        let tag = self.bytes[p];
        if tag == TAG_NULL {
            Ok(AbiValue::Null)
        } else if tag == TAG_BOOL {
            if (ptr as u64) + 2 > len {
                Err(Trap::MemoryOutOfBounds)
            } else if self.bytes[p + 1] == 0 {
                Ok(AbiValue::Bool(false))
            } else if self.bytes[p + 1] == 1 {
                Ok(AbiValue::Bool(true))
            } else {
                Err(Trap::GuestFault)
            }
        } else if tag == TAG_U32 || tag == TAG_I32 {
            if (ptr as u64) + 5 > len {
                Err(Trap::MemoryOutOfBounds)
            } else if tag == TAG_U32 {
                Ok(AbiValue::U32(self.read_le_at(p + 1)))
            } else {
                Ok(AbiValue::I32(self.read_le_at(p + 1) as i32))
            }
        } else if tag == TAG_BYTES || tag == TAG_STRING {
            if (ptr as u64) + 5 > len {
                return Err(Trap::MemoryOutOfBounds);
            }
            let n = self.read_le_at(p + 1);
            if (ptr as u64) + 5 + (n as u64) > len {
                Err(Trap::MemoryOutOfBounds)
            } else if tag == TAG_BYTES {
                Ok(AbiValue::Bytes(self.copy_range(p + 5, n as usize)))
            } else {
                let bytes = self.copy_range(p + 5, n as usize);
                match string_from_utf8(bytes) {
                    Some(text) => {
                        proof {
                            encode_utf8_decode_utf8(text@);
                        }
                        Ok(AbiValue::Str(text))
                    },
                    None => Err(Trap::GuestFault),
                }
            }
        } else if tag == TAG_ARRAY {
            if (ptr as u64) + 5 > len {
                return Err(Trap::MemoryOutOfBounds);
            }
            let n = self.read_le_at(p + 1);
            if (ptr as u64) + 5 + 4 * (n as u64) > len {
                Err(Trap::MemoryOutOfBounds)
            } else {
                Ok(AbiValue::Array(self.read_words_at(p + 5, n as usize)))
            }
        } else if tag == TAG_UNSIGNED_WIDE || tag == TAG_SIGNED_WIDE {
            if (ptr as u64) + 1 + (WIDE_INT_BYTES as u64) > len {
                Err(Trap::MemoryOutOfBounds)
            } else if tag == TAG_UNSIGNED_WIDE {
                Ok(AbiValue::UnsignedWide(self.copy_range(p + 1, WIDE_INT_BYTES)))
            } else {
                Ok(AbiValue::SignedWide(self.copy_range(p + 1, WIDE_INT_BYTES)))
            }
        } else {
            Err(Trap::GuestFault)
        }
    }

    fn push_le(&mut self, x: u32)
        requires
            old(self)@.len() + 4 <= MAX_MEMORY,
        ensures
            final(self)@ == old(self)@ + le_bytes(x),
    {
        self.bytes.push((x & 0xff) as u8);
        self.bytes.push(((x >> 8u32) & 0xff) as u8);
        self.bytes.push(((x >> 16u32) & 0xff) as u8);
        self.bytes.push(((x >> 24u32) & 0xff) as u8);
        proof {
            assert(self@ =~= old(self)@ + le_bytes(x));
        }
    }

    fn push_all(&mut self, b: &Vec<u8>)
        requires
            old(self)@.len() + b@.len() <= MAX_MEMORY,
        ensures
            final(self)@ == old(self)@ + b@,
    {
        self.push_slice(b.as_slice());
    }

    fn push_slice(&mut self, b: &[u8])
        requires
            old(self)@.len() + b@.len() <= MAX_MEMORY,
        ensures
            final(self)@ == old(self)@ + b@,
    {
        let mut i: usize = 0;
        while i < b.len()
            invariant
                i <= b@.len(),
                self@ == old(self)@ + b@.subrange(0, i as int),
            decreases b@.len() - i,
        {
            self.bytes.push(b[i]);
            i = i + 1;
            proof {
                assert(self@ =~= old(self)@ + b@.subrange(0, i as int));
            }
        }
        proof {
            assert(b@.subrange(0, b@.len() as int) =~= b@);
        }
    }

    /// Writes `v` at the end of memory and returns its guest offset. Fails
    /// with `OutOfResource` when the memory would outgrow the address space.
    pub fn encode(&mut self, v: &AbiValue) -> (r: Result<u32, Trap>)
        requires
            old(self).wf(),
            value_wf(v@),
        ensures
            final(self).wf(),
            old(self)@.len() + encoding(v@).len() <= MAX_MEMORY ==> r == Ok::<u32, Trap>(
                old(self)@.len() as u32,
            ) && final(self)@ == old(self)@ + encoding(v@),
            old(self)@.len() + encoding(v@).len() > MAX_MEMORY ==> r == Err::<u32, Trap>(
                Trap::OutOfResource,
            ) && final(self)@ == old(self)@,
    {
        let start = self.bytes.len() as u64;
        let size: u64 = match v {
            AbiValue::Null => 1,
            AbiValue::Bool(_) => 2,
            AbiValue::U32(_) => 5,
            AbiValue::I32(_) => 5,
            AbiValue::Bytes(b) => {
                if b.len() as u64 > MAX_MEMORY {
                    return Err(Trap::OutOfResource);
                }
                5 + b.len() as u64
            },
            AbiValue::Str(t) => {
                let n = t.as_str().as_bytes().len();
                if n as u64 > MAX_MEMORY {
                    return Err(Trap::OutOfResource);
                }
                5 + n as u64
            },
            AbiValue::Array(a) => {
                if a.len() as u64 > MAX_MEMORY {
                    return Err(Trap::OutOfResource);
                }
                5 + 4 * a.len() as u64
            },
            AbiValue::UnsignedWide(_) => 1 + WIDE_INT_BYTES as u64,
            AbiValue::SignedWide(_) => 1 + WIDE_INT_BYTES as u64,
        };
        proof {
            assert(size == encoding(v@).len());
        }
        if start + size > MAX_MEMORY {
            return Err(Trap::OutOfResource);
        }
        let ghost before = self@;
        match v {
            AbiValue::Null => {
                self.bytes.push(TAG_NULL);
            },
            AbiValue::Bool(b) => {
                self.bytes.push(TAG_BOOL);
                self.bytes.push(if *b { 1u8 } else { 0u8 });
            },
            AbiValue::U32(x) => {
                self.bytes.push(TAG_U32);
                self.push_le(*x);
            },
            AbiValue::I32(x) => {
                self.bytes.push(TAG_I32);
                self.push_le(*x as u32);
            },
            AbiValue::Bytes(b) => {
                self.bytes.push(TAG_BYTES);
                self.push_le(b.len() as u32);
                self.push_all(b);
            },
            AbiValue::Str(t) => {
                let b = t.as_str().as_bytes();
                self.bytes.push(TAG_STRING);
                self.push_le(b.len() as u32);
                self.push_slice(b);
            },
            AbiValue::Array(a) => {
                self.bytes.push(TAG_ARRAY);
                self.push_le(a.len() as u32);
                let ghost head = self@;
                let mut i: usize = 0;
                while i < a.len()
                    invariant
                        i <= a@.len(),
                        head.len() + 4 * a@.len() <= MAX_MEMORY,
                        self@ == head + le_words(a@.subrange(0, i as int)),
                    decreases a@.len() - i,
                {
                    proof {
                        lemma_le_words_push(a@.subrange(0, i as int), a@[i as int]);
                        assert(a@.subrange(0, i + 1) =~= a@.subrange(0, i as int).push(a@[i as int]));
                    }
                    self.push_le(a[i]);
                    i = i + 1;
                }
                proof {
                    assert(a@.subrange(0, a@.len() as int) =~= a@);
                }
            },
            AbiValue::UnsignedWide(b) => {
                self.bytes.push(TAG_UNSIGNED_WIDE);
                self.push_all(b);
            },
            AbiValue::SignedWide(b) => {
                self.bytes.push(TAG_SIGNED_WIDE);
                self.push_all(b);
            },
        }
        proof {
            assert(self@ =~= before + encoding(v@));
        }
        Ok(start as u32)
    }
}

} // verus!
