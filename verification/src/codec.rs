//! Deterministic binary encoding of keys and values.
//!
//! Every integer is laid out big-endian and fixed-width, and signed values
//! are shifted into the unsigned range first, so that byte-lexicographic
//! order of an encoded key equals the natural order of the value. Range
//! scans in the store rely on raw-byte comparisons, which makes this
//! property load-bearing. Decoding never falls back to defaults: malformed
//! or truncated input fails with a `CodecError`.
use crate::errors::CodecError;
use vstd::arithmetic::div_mod::lemma_fundamental_div_mod;
use vstd::arithmetic::div_mod::lemma_fundamental_div_mod_converse;
use vstd::arithmetic::div_mod::lemma_multiply_divide_lt;
use vstd::arithmetic::mul::lemma_mul_basics;
use vstd::arithmetic::mul::lemma_mul_inequality;
use vstd::arithmetic::mul::lemma_mul_is_associative;
use vstd::arithmetic::mul::lemma_mul_is_commutative;
use vstd::arithmetic::mul::lemma_mul_is_distributive_add;
use vstd::arithmetic::mul::lemma_mul_is_distributive_add_other_way;
use vstd::prelude::*;
use vstd::string::StringSliceAdditionalSpecFns;
use vstd::string::StrSliceExecFns;

verus! {

/// `256^n`: the number of values that fit in `n` bytes.
pub open spec fn pow256(n: nat) -> nat
    decreases n,
{
    if n == 0 {
        1
    } else {
        256 * pow256((n - 1) as nat)
    }
}

pub proof fn lemma_pow256_pos(n: nat)
    ensures
        pow256(n) >= 1,
    decreases n,
{
    if n > 0 {
        lemma_pow256_pos((n - 1) as nat);
    }
}

pub proof fn lemma_pow256_mono(a: nat, b: nat)
    requires
        a <= b,
    ensures
        pow256(a) <= pow256(b),
    decreases b,
{
    if a < b {
        lemma_pow256_mono(a, (b - 1) as nat);
        lemma_pow256_pos((b - 1) as nat);
    }
}

/// Big-endian bytes of `v mod 256^n`, exactly `n` bytes wide: the low byte
/// stands last.
pub open spec fn be_bytes(v: nat, n: nat) -> Seq<u8>
    decreases n,
{
    if n == 0 {
        Seq::empty()
    } else {
        be_bytes(v / 256, (n - 1) as nat).push((v % 256) as u8)
    }
}

/// The value a big-endian byte sequence stands for.
pub open spec fn be_val(s: Seq<u8>) -> nat
    decreases s.len(),
{
    if s.len() == 0 {
        0nat
    } else {
        256 * be_val(s.drop_last()) + s.last() as nat
    }
}

pub proof fn lemma_be_bytes_len(v: nat, n: nat)
    ensures
        be_bytes(v, n).len() == n,
    decreases n,
{
    if n > 0 {
        lemma_be_bytes_len(v / 256, (n - 1) as nat);
    }
}

pub proof fn lemma_be_val_bound(s: Seq<u8>)
    ensures
        be_val(s) < pow256(s.len()),
    decreases s.len(),
{
    if s.len() > 0 {
        lemma_be_val_bound(s.drop_last());
    }
}

/// Reading back the big-endian bytes of an in-range value gives the value.
pub proof fn lemma_be_val_be_bytes(v: nat, n: nat)
    requires
        v < pow256(n),
    ensures
        be_val(be_bytes(v, n)) == v,
    decreases n,
{
    if n > 0 {
        assert(v < 256 * pow256((n - 1) as nat));
        assert(v / 256 < pow256((n - 1) as nat)) by {
            lemma_multiply_divide_lt(v as int, 256, pow256((n - 1) as nat) as int);
        }
        lemma_be_val_be_bytes(v / 256, (n - 1) as nat);
        let s = be_bytes(v, n);
        assert(s.drop_last() =~= be_bytes(v / 256, (n - 1) as nat));
        lemma_fundamental_div_mod(v as int, 256);
    }
}

/// The leading byte carries the top place value.
pub proof fn lemma_be_val_first(s: Seq<u8>)
    requires
        s.len() > 0,
    ensures
        be_val(s) == s[0] as nat * pow256((s.len() - 1) as nat) + be_val(s.drop_first()),
    decreases s.len(),
{
    if s.len() == 1 {
        assert(s.drop_last() =~= Seq::<u8>::empty());
        assert(s.drop_first() =~= Seq::<u8>::empty());
        assert(s.last() == s[0]);
        lemma_mul_basics(s[0] as int);
        assert(pow256(0) == 1);
    } else {
        let dl = s.drop_last();
        let df = s.drop_first();
        let a = s[0] as int;
        let p = pow256((s.len() - 2) as nat) as int;
        lemma_be_val_first(dl);
        assert(dl[0] == s[0]);
        assert(dl.drop_first() =~= df.drop_last());
        assert(df.last() == s.last());
        let m = be_val(df.drop_last()) as int;
        // be_val(s) == 256 * (a * p + m) + s.last()
        assert(256 * (a * p + m) == 256 * (a * p) + 256 * m) by {
            lemma_mul_is_distributive_add(256, a * p, m);
        }
        assert(256 * (a * p) == a * (256 * p)) by {
            lemma_mul_is_associative(256, a, p);
            lemma_mul_is_commutative(256, a);
            lemma_mul_is_associative(a, 256, p);
        }
    }
}

/// Strict lexicographic order on byte strings: the order raw-byte
/// comparisons in the storage backend use.
pub open spec fn lex_lt(a: Seq<u8>, b: Seq<u8>) -> bool
    decreases a.len(),
{
    if b.len() == 0 {
        false
    } else if a.len() == 0 {
        true
    } else if a[0] < b[0] {
        true
    } else if a[0] > b[0] {
        false
    } else {
        lex_lt(a.drop_first(), b.drop_first())
    }
}

pub open spec fn lex_le(a: Seq<u8>, b: Seq<u8>) -> bool {
    a == b || lex_lt(a, b)
}

/// On equal-width strings, lexicographic order is the order of the values
/// the bytes stand for.
pub proof fn lemma_lex_lt_iff_val_lt(a: Seq<u8>, b: Seq<u8>)
    requires
        a.len() == b.len(),
    ensures
        lex_lt(a, b) <==> be_val(a) < be_val(b),
    decreases a.len(),
{
    if a.len() > 0 {
        let p = pow256((a.len() - 1) as nat);
        lemma_be_val_first(a);
        lemma_be_val_first(b);
        lemma_be_val_bound(a.drop_first());
        lemma_be_val_bound(b.drop_first());
        lemma_lex_lt_iff_val_lt(a.drop_first(), b.drop_first());
        if a[0] < b[0] {
            assert((a[0] + 1) * p <= b[0] as int * p) by {
                lemma_mul_inequality(a[0] + 1, b[0] as int, p as int);
            }
            assert(a[0] as int * p + p == (a[0] + 1) * p) by {
                lemma_mul_is_distributive_add_other_way(p as int, a[0] as int, 1);
            }
        } else if a[0] > b[0] {
            assert((b[0] + 1) * p <= a[0] as int * p) by {
                lemma_mul_inequality(b[0] + 1, a[0] as int, p as int);
            }
            assert(b[0] as int * p + p == (b[0] + 1) * p) by {
                lemma_mul_is_distributive_add_other_way(p as int, b[0] as int, 1);
            }
        }
    }
}

/// Equal-width encodings compare exactly as their values do.
pub proof fn lemma_be_bytes_order(v1: nat, v2: nat, n: nat)
    requires
        v1 < pow256(n),
        v2 < pow256(n),
    ensures
        lex_lt(be_bytes(v1, n), be_bytes(v2, n)) <==> v1 < v2,
        (be_bytes(v1, n) == be_bytes(v2, n)) <==> v1 == v2,
{
    lemma_be_bytes_len(v1, n);
    lemma_be_bytes_len(v2, n);
    lemma_be_val_be_bytes(v1, n);
    lemma_be_val_be_bytes(v2, n);
    lemma_lex_lt_iff_val_lt(be_bytes(v1, n), be_bytes(v2, n));
}

/// Exact powers used by the executable encoders.
proof fn lemma_pow256_consts()
    ensures
        pow256(4) == 0x1_0000_0000,
        pow256(8) == 0x1_0000_0000_0000_0000,
        pow256(15) == 0x1_0000_0000_0000_0000_0000_0000_0000_00,
        pow256(16) == 0x1_0000_0000_0000_0000_0000_0000_0000_0000,
{
    reveal_with_fuel(pow256, 17);
}

/// The `width`-byte big-endian encoding of `v`, low byte written last.
fn be_bytes_exec(v: u128, width: usize) -> (r: Vec<u8>)
    requires
        width <= 16,
    ensures
        r@ == be_bytes(v as nat, width as nat),
    decreases width,
{
    if width == 0 {
        let r: Vec<u8> = Vec::new();
        proof {
            assert(r@ =~= be_bytes(v as nat, 0));
        }
        r
    } else {
        let mut r = be_bytes_exec(v / 256, width - 1);
        r.push((v % 256) as u8);
        r
    }
}

/// Appends the `width`-byte big-endian encoding of `v`.
pub fn push_be(out: &mut Vec<u8>, v: u128, width: usize)
    requires
        width <= 16,
    ensures
        final(out)@ == old(out)@ + be_bytes(v as nat, width as nat),
{
    let mut tail = be_bytes_exec(v, width);
    out.append(&mut tail);
}

/// Reads the `width`-byte big-endian value starting at `off`.
pub fn read_be(bytes: &Vec<u8>, off: usize, width: usize) -> (r: u128)
    requires
        width <= 16,
        off + width <= bytes@.len(),
    ensures
        r as nat == be_val(bytes@.subrange(off as int, off + width)),
{
    let n = bytes.len();
    let mut acc: u128 = 0;
    let mut i: usize = 0;
    proof {
        assert(bytes@.subrange(off as int, off as int) =~= Seq::<u8>::empty());
    }
    while i < width
        invariant
            i <= width <= 16,
            off + width <= n == bytes@.len(),
            acc as nat == be_val(bytes@.subrange(off as int, off + i)),
        decreases width - i,
    {
        let b = bytes[off + i];
        proof {
            let prefix = bytes@.subrange(off as int, off + i);
            let ext = bytes@.subrange(off as int, off + i + 1);
            assert(ext =~= prefix.push(b));
            assert(ext.drop_last() =~= prefix);
            assert(be_val(ext) == 256 * be_val(prefix) + b);
            lemma_be_val_bound(prefix);
            lemma_pow256_mono((i + 1) as nat, 16);
            lemma_pow256_consts();
        }
        acc = acc * 256 + (b as u128);
        i = i + 1;
    }
    acc
}

/// An `i64` shifted into the unsigned range, so that unsigned order equals
/// signed order.
pub open spec fn shift_i64(t: i64) -> nat {
    (t + 0x8000_0000_0000_0000) as nat
}

/// Order-preserving 8-byte key encoding of a timestamp.
pub open spec fn enc_i64(t: i64) -> Seq<u8> {
    be_bytes(shift_i64(t), 8)
}

/// An `i128` shifted into the unsigned range.
pub open spec fn shift_i128(a: i128) -> nat {
    (a + 0x8000_0000_0000_0000_0000_0000_0000_0000) as nat
}

/// Order-preserving 16-byte encoding of a decimal's atoms.
pub open spec fn enc_i128(a: i128) -> Seq<u8> {
    be_bytes(shift_i128(a), 16)
}

/// 8-byte big-endian encoding of a raw 64-bit field.
pub open spec fn enc_u64(v: u64) -> Seq<u8> {
    be_bytes(v as nat, 8)
}

/// Keys keep their order under encoding: the byte-level comparison the
/// backend makes agrees with the numeric order of timestamps.
pub proof fn lemma_enc_i64_order(t1: i64, t2: i64)
    ensures
        lex_lt(enc_i64(t1), enc_i64(t2)) <==> t1 < t2,
        (enc_i64(t1) == enc_i64(t2)) <==> t1 == t2,
        enc_i64(t1).len() == 8,
{
    lemma_pow256_consts();
    lemma_be_bytes_order(shift_i64(t1), shift_i64(t2), 8);
    lemma_be_bytes_len(shift_i64(t1), 8);
}

pub fn push_i64(out: &mut Vec<u8>, t: i64)
    ensures
        final(out)@ == old(out)@ + enc_i64(t),
{
    proof {
        lemma_pow256_consts();
    }
    let u: i128 = (t as i128) + 0x8000_0000_0000_0000i128;
    push_be(out, u as u128, 8);
}

pub fn push_u64(out: &mut Vec<u8>, v: u64)
    ensures
        final(out)@ == old(out)@ + enc_u64(v),
{
    proof {
        lemma_pow256_consts();
    }
    push_be(out, v as u128, 8);
}

pub fn push_i128(out: &mut Vec<u8>, a: i128)
    ensures
        final(out)@ == old(out)@ + enc_i128(a),
{
    proof {
        lemma_pow256_consts();
    }
    let u: u128 = if a >= 0 {
        (a as u128) + 0x8000_0000_0000_0000_0000_0000_0000_0000u128
    } else {
        (a - i128::MIN) as u128
    };
    push_be(out, u, 16);
}

/// Reads back a key written by `push_i64`.
pub fn read_i64(bytes: &Vec<u8>, off: usize) -> (t: i64)
    requires
        off + 8 <= bytes@.len(),
    ensures
        shift_i64(t) == be_val(bytes@.subrange(off as int, off + 8)),
{
    let r = read_be(bytes, off, 8);
    proof {
        lemma_be_val_bound(bytes@.subrange(off as int, off + 8));
        lemma_pow256_consts();
    }
    ((r as i128) - 0x8000_0000_0000_0000i128) as i64
}

pub fn read_u64(bytes: &Vec<u8>, off: usize) -> (v: u64)
    requires
        off + 8 <= bytes@.len(),
    ensures
        v as nat == be_val(bytes@.subrange(off as int, off + 8)),
{
    let r = read_be(bytes, off, 8);
    proof {
        lemma_be_val_bound(bytes@.subrange(off as int, off + 8));
        lemma_pow256_consts();
    }
    r as u64
}

pub fn read_i128(bytes: &Vec<u8>, off: usize) -> (a: i128)
    requires
        off + 16 <= bytes@.len(),
    ensures
        shift_i128(a) == be_val(bytes@.subrange(off as int, off + 16)),
{
    let r = read_be(bytes, off, 16);
    proof {
        lemma_be_val_bound(bytes@.subrange(off as int, off + 16));
        lemma_pow256_consts();
    }
    if r >= 0x8000_0000_0000_0000_0000_0000_0000_0000u128 {
        (r - 0x8000_0000_0000_0000_0000_0000_0000_0000u128) as i128
    } else {
        (r as i128) + i128::MIN
    }
}

/// The encoded key decodes to the value it was built from, for every
/// timestamp including the boundary values.
pub proof fn lemma_enc_i64_val(t: i64)
    ensures
        be_val(enc_i64(t)) == shift_i64(t),
        enc_i64(t).len() == 8,
{
    lemma_pow256_consts();
    lemma_be_val_be_bytes(shift_i64(t), 8);
    lemma_be_bytes_len(shift_i64(t), 8);
}

pub proof fn lemma_enc_i128_val(a: i128)
    ensures
        be_val(enc_i128(a)) == shift_i128(a),
        enc_i128(a).len() == 16,
{
    lemma_pow256_consts();
    lemma_be_val_be_bytes(shift_i128(a), 16);
    lemma_be_bytes_len(shift_i128(a), 16);
}

pub proof fn lemma_enc_u64_val(v: u64)
    ensures
        be_val(enc_u64(v)) == v,
        enc_u64(v).len() == 8,
{
    lemma_pow256_consts();
    lemma_be_val_be_bytes(v as nat, 8);
    lemma_be_bytes_len(v as nat, 8);
}

/// Encoding the value a byte string stands for gives the string back.
pub proof fn lemma_be_bytes_be_val(s: Seq<u8>)
    ensures
        be_bytes(be_val(s), s.len()) == s,
    decreases s.len(),
{
    if s.len() > 0 {
        let dl = s.drop_last();
        let v = be_val(s);
        lemma_fundamental_div_mod_converse(v as int, 256, be_val(dl) as int, s.last() as int);
        lemma_be_bytes_be_val(dl);
        assert(be_bytes(v, s.len()) =~= s);
    } else {
        assert(be_bytes(0, 0) =~= s);
    }
}

/// The wire layout of one price bar: ten fixed-width big-endian fields,
/// eighty bytes in all.
pub open spec fn enc_candle(c: crate::models::Candle) -> Seq<u8> {
    enc_i64(c.time) + enc_u64(c.open) + enc_u64(c.high) + enc_u64(c.low) + enc_u64(c.close)
        + enc_u64(c.volume) + enc_u64(c.amount) + enc_u64(c.taker_volume) + enc_u64(
        c.taker_amount,
    ) + enc_i64(c.trades)
}

pub proof fn lemma_enc_candle_len(c: crate::models::Candle)
    ensures
        enc_candle(c).len() == 80,
{
    lemma_enc_i64_val(c.time);
    lemma_enc_i64_val(c.trades);
    lemma_enc_u64_val(c.open);
    lemma_enc_u64_val(c.high);
    lemma_enc_u64_val(c.low);
    lemma_enc_u64_val(c.close);
    lemma_enc_u64_val(c.volume);
    lemma_enc_u64_val(c.amount);
    lemma_enc_u64_val(c.taker_volume);
    lemma_enc_u64_val(c.taker_amount);
}

/// Serializes one candle.
pub fn encode_candle(c: &crate::models::Candle) -> (r: Vec<u8>)
    ensures
        r@ == enc_candle(*c),
        r@.len() == 80,
{
    let mut out: Vec<u8> = Vec::new();
    push_i64(&mut out, c.time);
    push_u64(&mut out, c.open);
    push_u64(&mut out, c.high);
    push_u64(&mut out, c.low);
    push_u64(&mut out, c.close);
    push_u64(&mut out, c.volume);
    push_u64(&mut out, c.amount);
    push_u64(&mut out, c.taker_volume);
    push_u64(&mut out, c.taker_amount);
    push_i64(&mut out, c.trades);
    proof {
        assert(out@ =~= enc_candle(*c));
        lemma_enc_candle_len(*c);
    }
    out
}

/// Deserializes one candle. Exactly the eighty-byte strings decode; an `Ok`
/// answer is always the unique candle whose encoding is the input, so
/// decoding what `encode_candle` wrote gives the original bar back.
pub fn decode_candle(bytes: &Vec<u8>) -> (r: Result<crate::models::Candle, CodecError>)
    ensures
        r is Ok <==> bytes@.len() == 80,
        r is Ok ==> enc_candle(r->Ok_0) == bytes@,
        bytes@.len() < 80 ==> r == Err::<crate::models::Candle, CodecError>(CodecError::Truncated),
        bytes@.len() > 80 ==> r == Err::<crate::models::Candle, CodecError>(CodecError::Malformed),
{
    let n = bytes.len();
    if n < 80 {
        return Err(CodecError::Truncated);
    }
    if n > 80 {
        return Err(CodecError::Malformed);
    }
    let c = crate::models::Candle {
        time: read_i64(bytes, 0),
        open: read_u64(bytes, 8),
        high: read_u64(bytes, 16),
        low: read_u64(bytes, 24),
        close: read_u64(bytes, 32),
        volume: read_u64(bytes, 40),
        amount: read_u64(bytes, 48),
        taker_volume: read_u64(bytes, 56),
        taker_amount: read_u64(bytes, 64),
        trades: read_i64(bytes, 72),
    };
    proof {
        lemma_be_bytes_be_val(bytes@.subrange(0, 8));
        lemma_be_bytes_be_val(bytes@.subrange(8, 16));
        lemma_be_bytes_be_val(bytes@.subrange(16, 24));
        lemma_be_bytes_be_val(bytes@.subrange(24, 32));
        lemma_be_bytes_be_val(bytes@.subrange(32, 40));
        lemma_be_bytes_be_val(bytes@.subrange(40, 48));
        lemma_be_bytes_be_val(bytes@.subrange(48, 56));
        lemma_be_bytes_be_val(bytes@.subrange(56, 64));
        lemma_be_bytes_be_val(bytes@.subrange(64, 72));
        lemma_be_bytes_be_val(bytes@.subrange(72, 80));
        assert(enc_candle(c) =~= bytes@);
    }
    Ok(c)
}

/// One candle's bytes stand for that candle alone: the encoding never
/// collides, so the store's last-writer-wins upserts are unambiguous.
pub proof fn lemma_enc_candle_injective(c1: crate::models::Candle, c2: crate::models::Candle)
    requires
        enc_candle(c1) == enc_candle(c2),
    ensures
        c1 == c2,
{
    lemma_enc_candle_len(c1);
    lemma_enc_candle_len(c2);
    lemma_enc_i64_val(c1.time);
    lemma_enc_i64_val(c2.time);
    lemma_enc_u64_val(c1.open);
    lemma_enc_u64_val(c2.open);
    lemma_enc_u64_val(c1.high);
    lemma_enc_u64_val(c2.high);
    lemma_enc_u64_val(c1.low);
    lemma_enc_u64_val(c2.low);
    lemma_enc_u64_val(c1.close);
    lemma_enc_u64_val(c2.close);
    lemma_enc_u64_val(c1.volume);
    lemma_enc_u64_val(c2.volume);
    lemma_enc_u64_val(c1.amount);
    lemma_enc_u64_val(c2.amount);
    lemma_enc_u64_val(c1.taker_volume);
    lemma_enc_u64_val(c2.taker_volume);
    lemma_enc_u64_val(c1.taker_amount);
    lemma_enc_u64_val(c2.taker_amount);
    lemma_enc_i64_val(c1.trades);
    lemma_enc_i64_val(c2.trades);
    let b = enc_candle(c1);
    assert(enc_i64(c1.time) =~= b.subrange(0, 8));
    assert(enc_i64(c2.time) =~= b.subrange(0, 8));
    assert(enc_u64(c1.open) =~= b.subrange(8, 16));
    assert(enc_u64(c2.open) =~= b.subrange(8, 16));
    assert(enc_u64(c1.high) =~= b.subrange(16, 24));
    assert(enc_u64(c2.high) =~= b.subrange(16, 24));
    assert(enc_u64(c1.low) =~= b.subrange(24, 32));
    assert(enc_u64(c2.low) =~= b.subrange(24, 32));
    assert(enc_u64(c1.close) =~= b.subrange(32, 40));
    assert(enc_u64(c2.close) =~= b.subrange(32, 40));
    assert(enc_u64(c1.volume) =~= b.subrange(40, 48));
    assert(enc_u64(c2.volume) =~= b.subrange(40, 48));
    assert(enc_u64(c1.amount) =~= b.subrange(48, 56));
    assert(enc_u64(c2.amount) =~= b.subrange(48, 56));
    assert(enc_u64(c1.taker_volume) =~= b.subrange(56, 64));
    assert(enc_u64(c2.taker_volume) =~= b.subrange(56, 64));
    assert(enc_u64(c1.taker_amount) =~= b.subrange(64, 72));
    assert(enc_u64(c2.taker_amount) =~= b.subrange(64, 72));
    assert(enc_i64(c1.trades) =~= b.subrange(72, 80));
    assert(enc_i64(c2.trades) =~= b.subrange(72, 80));
}


/// The error `String::from_utf8` reports for invalid bytes.
#[verifier::external_type_specification]
#[verifier::external_body]
pub struct ExFromUtf8Error(std::string::FromUtf8Error);

/// Relies on `String::from_utf8`: it answers the string whose UTF-8
/// encoding is the given bytes, exactly when the bytes are valid UTF-8.
pub assume_specification[ String::from_utf8 ](v: Vec<u8>) -> (r: Result<
    String,
    std::string::FromUtf8Error,
>)
    ensures
        r is Ok <==> vstd::utf8::valid_utf8(v@),
        r matches Ok(s) ==> s@ == vstd::utf8::decode_utf8(v@),
;

/// Length-prefixed UTF-8: four big-endian bytes of byte count, then the
/// bytes themselves.
pub open spec fn enc_str(s: Seq<char>) -> Seq<u8> {
    be_bytes(vstd::utf8::encode_utf8(s).len(), 4) + vstd::utf8::encode_utf8(s)
}

/// A string the four-byte length prefix can carry.
pub open spec fn str_encodable(s: Seq<char>) -> bool {
    vstd::utf8::encode_utf8(s).len() < 0x1_0000_0000
}

pub proof fn lemma_enc_str_len(s: Seq<char>)
    ensures
        enc_str(s).len() == 4 + vstd::utf8::encode_utf8(s).len(),
{
    lemma_be_bytes_len(vstd::utf8::encode_utf8(s).len(), 4);
}

/// Appends the length-prefixed encoding of `s`.
pub fn push_str(out: &mut Vec<u8>, s: &str)
    requires
        s.spec_bytes().len() < 0x1_0000_0000,
    ensures
        final(out)@ == old(out)@ + enc_str(s@),
{
    proof {
        lemma_pow256_consts();
    }
    let n = s.len();
    push_be(out, n as u128, 4);
    let mut bytes = s.as_bytes_vec();
    out.append(&mut bytes);
    proof {
        assert(final(out)@ =~= old(out)@ + enc_str(s@));
    }
}

/// Reads back a length-prefixed string at `off`: the decoded text and the
/// offset just past it. Exactly the well-formed prefixes decode, and to
/// the text they encode.
pub fn dec_str(bytes: &Vec<u8>, off: usize) -> (r: Result<(String, usize), CodecError>)
    requires
        off <= bytes@.len(),
    ensures
        r matches Ok(p) ==> {
            &&& off + 4 <= p.1 <= bytes@.len()
            &&& str_encodable(p.0@)
            &&& p.1 == off + enc_str(p.0@).len()
            &&& bytes@.subrange(off as int, p.1 as int) == enc_str(p.0@)
        },
        forall|t: Seq<char>|
            (#[trigger] str_encodable(t)) && off + enc_str(t).len() <= bytes@.len()
                && bytes@.subrange(off as int, off + enc_str(t).len()) == enc_str(t) ==> (
            r matches Ok(p) && p.0@ == t && p.1 == off + enc_str(t).len()),
{
    let n = bytes.len();
    proof {
        lemma_pow256_consts();
        assert forall|t: Seq<char>|
            (#[trigger] str_encodable(t)) && off + enc_str(t).len() <= bytes@.len()
                && bytes@.subrange(off as int, off + enc_str(t).len()) == enc_str(t) implies off + 4
            <= bytes@.len() && be_val(bytes@.subrange(off as int, off + 4))
            == vstd::utf8::encode_utf8(t).len() && off + 4 + vstd::utf8::encode_utf8(t).len()
            <= bytes@.len() && bytes@.subrange(off + 4, off + 4 + vstd::utf8::encode_utf8(t).len())
            == vstd::utf8::encode_utf8(t) by {
            let u = vstd::utf8::encode_utf8(t);
            lemma_enc_str_len(t);
            lemma_be_bytes_len(u.len(), 4);
            assert(bytes@.subrange(off as int, off + 4) =~= enc_str(t).subrange(0, 4));
            assert(enc_str(t).subrange(0, 4) =~= be_bytes(u.len(), 4));
            lemma_be_val_be_bytes(u.len(), 4);
            assert(bytes@.subrange(off + 4, off + 4 + u.len() as int) =~= enc_str(t).subrange(
                4,
                enc_str(t).len() as int,
            ));
            assert(enc_str(t).subrange(4, enc_str(t).len() as int) =~= u);
        }
    }
    if n < 4 || off > n - 4 {
        return Err(CodecError::Truncated);
    }
    let l128 = read_be(bytes, off, 4);
    proof {
        lemma_be_val_bound(bytes@.subrange(off as int, off + 4));
    }
    let l = l128 as usize;
    if l > n - (off + 4) {
        return Err(CodecError::Truncated);
    }
    let end = off + 4 + l;
    let seg = vstd::slice::slice_subrange(bytes.as_slice(), off + 4, end);
    let v = vstd::slice::slice_to_vec(seg);
    let ghost segv = bytes@.subrange(off + 4, end as int);
    match String::from_utf8(v) {
        Ok(text) => {
            proof {
                broadcast use vstd::utf8::decode_utf8_encode_utf8;

                assert(vstd::utf8::encode_utf8(text@) == segv);
                let pre = bytes@.subrange(off as int, off + 4);
                lemma_be_bytes_be_val(pre);
                assert(be_bytes(vstd::utf8::encode_utf8(text@).len(), 4) == pre);
                assert(bytes@.subrange(off as int, end as int) =~= be_bytes(
                    vstd::utf8::encode_utf8(text@).len(),
                    4,
                ) + vstd::utf8::encode_utf8(text@));
                assert forall|t: Seq<char>|
                    (#[trigger] str_encodable(t)) && off + enc_str(t).len() <= bytes@.len()
                        && bytes@.subrange(off as int, off + enc_str(t).len()) == enc_str(
                        t,
                    ) implies text@ == t && end == off + enc_str(t).len() by {
                    broadcast use vstd::utf8::encode_utf8_decode_utf8;

                    lemma_enc_str_len(t);
                    assert(vstd::utf8::encode_utf8(t) == segv);
                }
            }
            Ok((text, end))
        },
        Err(_) => {
            proof {
                assert forall|t: Seq<char>|
                    (#[trigger] str_encodable(t)) && off + enc_str(t).len() <= bytes@.len()
                        && bytes@.subrange(off as int, off + enc_str(t).len()) == enc_str(
                        t,
                    ) implies false by {
                    broadcast use vstd::utf8::encode_utf8_valid_utf8;

                    lemma_enc_str_len(t);
                    assert(vstd::utf8::encode_utf8(t) == segv);
                }
            }
            Err(CodecError::Malformed)
        },
    }
}


pub open spec fn tag_of_type(k: crate::types::Type) -> u8 {
    match k {
        crate::types::Type::Limit => 0,
        crate::types::Type::Market => 1,
    }
}

pub open spec fn tag_of_side(sd: crate::types::Side) -> u8 {
    match sd {
        crate::types::Side::Long => 0,
        crate::types::Side::Short => 1,
    }
}

pub open spec fn tag_of_bool(b: bool) -> u8 {
    if b {
        1
    } else {
        0
    }
}

pub open spec fn tag_of_status(st: crate::types::OrderStatus) -> u8 {
    match st {
        crate::types::OrderStatus::Created => 0,
        crate::types::OrderStatus::Submitted => 1,
        crate::types::OrderStatus::Pending => 2,
        crate::types::OrderStatus::Partial => 3,
        crate::types::OrderStatus::Completed => 4,
        crate::types::OrderStatus::Rejected => 5,
        crate::types::OrderStatus::Canceled => 6,
    }
}

/// The wire layout of one order: the two strings length-prefixed, the
/// three one-byte tags, then the fixed-width numeric fields, one status
/// tag last.
pub open spec fn enc_order(o: crate::models::OrderView) -> Seq<u8> {
    enc_str(o.symbol) + enc_str(o.id) + seq![
        tag_of_type(o.kind),
        tag_of_side(o.side),
        tag_of_bool(o.reduce),
    ] + enc_i128(o.leverage) + enc_i128(o.size) + enc_i128(o.price) + enc_i64(o.time) + enc_i128(
        o.margin,
    ) + enc_i128(o.deal_size) + enc_i128(o.deal_price) + enc_i128(o.deal_average) + enc_i128(
        o.deal_fee,
    ) + seq![tag_of_status(o.status)]
}

/// An order the wire layout can carry: both strings fit their four-byte
/// length prefix.
pub open spec fn order_encodable(o: crate::models::OrderView) -> bool {
    str_encodable(o.symbol) && str_encodable(o.id)
}

pub proof fn lemma_enc_order_len(o: crate::models::OrderView)
    ensures
        enc_order(o).len() == enc_str(o.symbol).len() + enc_str(o.id).len() + 140,
{
    lemma_enc_str_len(o.symbol);
    lemma_enc_str_len(o.id);
    lemma_enc_i128_val(o.leverage);
    lemma_enc_i128_val(o.size);
    lemma_enc_i128_val(o.price);
    lemma_enc_i64_val(o.time);
    lemma_enc_i128_val(o.margin);
    lemma_enc_i128_val(o.deal_size);
    lemma_enc_i128_val(o.deal_price);
    lemma_enc_i128_val(o.deal_average);
    lemma_enc_i128_val(o.deal_fee);
}

/// Serializes one order.
pub fn encode_order(o: &crate::models::Order) -> (r: Vec<u8>)
    requires
        vstd::utf8::encode_utf8(o.symbol@).len() < 0x1_0000_0000,
        vstd::utf8::encode_utf8(o.id@).len() < 0x1_0000_0000,
    ensures
        r@ == enc_order(o@),
{
    let mut out: Vec<u8> = Vec::new();
    push_str(&mut out, o.symbol.as_str());
    push_str(&mut out, o.id.as_str());
    let kind_tag: u8 = match o.kind {
        crate::types::Type::Limit => 0,
        crate::types::Type::Market => 1,
    };
    out.push(kind_tag);
    let side_tag: u8 = match o.side {
        crate::types::Side::Long => 0,
        crate::types::Side::Short => 1,
    };
    out.push(side_tag);
    let reduce_tag: u8 = if o.reduce {
        1
    } else {
        0
    };
    out.push(reduce_tag);
    push_i128(&mut out, o.leverage.atoms);
    push_i128(&mut out, o.size.atoms);
    push_i128(&mut out, o.price.atoms);
    push_i64(&mut out, o.time);
    push_i128(&mut out, o.margin.atoms);
    push_i128(&mut out, o.deal_size.atoms);
    push_i128(&mut out, o.deal_price.atoms);
    push_i128(&mut out, o.deal_average.atoms);
    push_i128(&mut out, o.deal_fee.atoms);
    let status_tag: u8 = match o.status {
        crate::types::OrderStatus::Created => 0,
        crate::types::OrderStatus::Submitted => 1,
        crate::types::OrderStatus::Pending => 2,
        crate::types::OrderStatus::Partial => 3,
        crate::types::OrderStatus::Completed => 4,
        crate::types::OrderStatus::Rejected => 5,
        crate::types::OrderStatus::Canceled => 6,
    };
    out.push(status_tag);
    proof {
        assert(out@ =~= enc_order(o@));
    }
    out
}

/// Deserializes one order: exactly the wire images of orders decode, and
/// each to the one order that encodes to it, so decoding what
/// `encode_order` wrote gives the original order back.
#[verifier::rlimit(100)]
pub fn decode_order(bytes: &Vec<u8>) -> (r: Result<crate::models::Order, CodecError>)
    ensures
        r matches Ok(o) ==> order_encodable(o@) && enc_order(o@) == bytes@,
        r matches Ok(o) ==> forall|ov: crate::models::OrderView|
            #[trigger] order_encodable(ov) && bytes@ == enc_order(ov) ==> ov == o@,
        (exists|ov: crate::models::OrderView|
            #[trigger] order_encodable(ov) && bytes@ == enc_order(ov)) ==> r is Ok,
{
    let n = bytes.len();
    proof {
        assert forall|ov: crate::models::OrderView|
            #[trigger] order_encodable(ov) && bytes@ == enc_order(ov) implies str_encodable(
            ov.symbol,
        ) && 0 + enc_str(ov.symbol).len() <= bytes@.len() && bytes@.subrange(
            0,
            enc_str(ov.symbol).len() as int,
        ) == enc_str(ov.symbol) by {
            lemma_enc_order_len(ov);
            assert(bytes@.subrange(0, enc_str(ov.symbol).len() as int) =~= enc_str(ov.symbol));
        }
    }
    let (symbol, off1) = match dec_str(bytes, 0) {
        Ok(p) => p,
        Err(e) => {
            return Err(e);
        },
    };
    proof {
        assert forall|ov: crate::models::OrderView|
            #[trigger] order_encodable(ov) && bytes@ == enc_order(ov) implies ov.symbol == symbol@
            && str_encodable(ov.id) && off1 + enc_str(ov.id).len() <= bytes@.len()
            && bytes@.subrange(off1 as int, off1 + enc_str(ov.id).len()) == enc_str(ov.id) by {
            lemma_enc_order_len(ov);
            assert(bytes@.subrange(0, enc_str(ov.symbol).len() as int) =~= enc_str(ov.symbol));
            assert(ov.symbol == symbol@ && off1 == enc_str(ov.symbol).len());
            assert(bytes@.subrange(off1 as int, off1 + enc_str(ov.id).len()) =~= enc_str(ov.id));
        }
    }
    let (id, off2) = match dec_str(bytes, off1) {
        Ok(p) => p,
        Err(e) => {
            return Err(e);
        },
    };
    proof {
        assert forall|ov: crate::models::OrderView|
            #[trigger] order_encodable(ov) && bytes@ == enc_order(ov) implies ov.symbol == symbol@
            && ov.id == id@ && bytes@.len() == off2 + 140 && bytes@.subrange(
            off2 as int,
            off2 + 140,
        ) == enc_order(ov).subrange(off2 as int, off2 + 140) by {
            lemma_enc_order_len(ov);
            assert(bytes@.subrange(0, enc_str(ov.symbol).len() as int) =~= enc_str(ov.symbol));
            assert(ov.symbol == symbol@ && off1 == enc_str(ov.symbol).len());
            assert(bytes@.subrange(off1 as int, off1 + enc_str(ov.id).len()) =~= enc_str(ov.id));
            assert(ov.id == id@ && off2 == off1 + enc_str(ov.id).len());
        }
    }
    if n < 140 || off2 != n - 140 {
        proof {
            assert forall|ov: crate::models::OrderView|
                !(#[trigger] order_encodable(ov) && bytes@ == enc_order(ov)) by {
                if order_encodable(ov) && bytes@ == enc_order(ov) {
                    assert(bytes@.len() == off2 + 140);
                }
            }
        }
        return Err(CodecError::Truncated);
    }
    let kind = match bytes[off2] {
        0u8 => crate::types::Type::Limit,
        1u8 => crate::types::Type::Market,
        _ => {
            proof {
                lemma_order_field_bytes(bytes@, off2 as int);
            }
            return Err(CodecError::Malformed);
        },
    };
    let side = match bytes[off2 + 1] {
        0u8 => crate::types::Side::Long,
        1u8 => crate::types::Side::Short,
        _ => {
            proof {
                lemma_order_field_bytes(bytes@, off2 as int);
            }
            return Err(CodecError::Malformed);
        },
    };
    let reduce = match bytes[off2 + 2] {
        0u8 => false,
        1u8 => true,
        _ => {
            proof {
                lemma_order_field_bytes(bytes@, off2 as int);
            }
            return Err(CodecError::Malformed);
        },
    };
    let status = match bytes[off2 + 139] {
        0u8 => crate::types::OrderStatus::Created,
        1u8 => crate::types::OrderStatus::Submitted,
        2u8 => crate::types::OrderStatus::Pending,
        3u8 => crate::types::OrderStatus::Partial,
        4u8 => crate::types::OrderStatus::Completed,
        5u8 => crate::types::OrderStatus::Rejected,
        6u8 => crate::types::OrderStatus::Canceled,
        _ => {
            proof {
                lemma_order_field_bytes(bytes@, off2 as int);
            }
            return Err(CodecError::Malformed);
        },
    };
    let order = crate::models::Order {
        symbol,
        id,
        kind,
        side,
        reduce,
        leverage: crate::decimal::Decimal { atoms: read_i128(bytes, off2 + 3) },
        size: crate::decimal::Decimal { atoms: read_i128(bytes, off2 + 19) },
        price: crate::decimal::Decimal { atoms: read_i128(bytes, off2 + 35) },
        time: read_i64(bytes, off2 + 51),
        margin: crate::decimal::Decimal { atoms: read_i128(bytes, off2 + 59) },
        deal_size: crate::decimal::Decimal { atoms: read_i128(bytes, off2 + 75) },
        deal_price: crate::decimal::Decimal { atoms: read_i128(bytes, off2 + 91) },
        deal_average: crate::decimal::Decimal { atoms: read_i128(bytes, off2 + 107) },
        deal_fee: crate::decimal::Decimal { atoms: read_i128(bytes, off2 + 123) },
        status,
    };
    proof {
        let o = order@;
        lemma_order_decode_fields(bytes@, off2 as int, o);
        assert(enc_order(o) =~= bytes@);
        assert forall|ov: crate::models::OrderView|
            #[trigger] order_encodable(ov) && bytes@ == enc_order(ov) implies ov == o by {
            lemma_enc_order_len(ov);
            assert(bytes@.subrange(0, enc_str(ov.symbol).len() as int) =~= enc_str(ov.symbol));
            assert(ov.symbol == symbol@ && off1 == enc_str(ov.symbol).len());
            assert(bytes@.subrange(off1 as int, off1 + enc_str(ov.id).len()) =~= enc_str(ov.id));
            assert(ov.id == id@ && off2 == off1 + enc_str(ov.id).len());
            lemma_order_fields_injective(bytes@, off2 as int, ov, o);
        }
    }
    Ok(order)
}

/// The fixed tail of an order's encoding, field by field, seen from the
/// whole byte string.
proof fn lemma_order_tail_slices(b: Seq<u8>, base: int, ov: crate::models::OrderView)
    requires
        0 <= base,
        b.len() == base + 140,
        b == enc_order(ov),
        base == enc_str(ov.symbol).len() + enc_str(ov.id).len(),
    ensures
        b[base] == tag_of_type(ov.kind),
        b[base + 1] == tag_of_side(ov.side),
        b[base + 2] == tag_of_bool(ov.reduce),
        b.subrange(base + 3, base + 19) == enc_i128(ov.leverage),
        b.subrange(base + 19, base + 35) == enc_i128(ov.size),
        b.subrange(base + 35, base + 51) == enc_i128(ov.price),
        b.subrange(base + 51, base + 59) == enc_i64(ov.time),
        b.subrange(base + 59, base + 75) == enc_i128(ov.margin),
        b.subrange(base + 75, base + 91) == enc_i128(ov.deal_size),
        b.subrange(base + 91, base + 107) == enc_i128(ov.deal_price),
        b.subrange(base + 107, base + 123) == enc_i128(ov.deal_average),
        b.subrange(base + 123, base + 139) == enc_i128(ov.deal_fee),
        b[base + 139] == tag_of_status(ov.status),
{
    lemma_enc_str_len(ov.symbol);
    lemma_enc_str_len(ov.id);
    lemma_enc_i128_val(ov.leverage);
    lemma_enc_i128_val(ov.size);
    lemma_enc_i128_val(ov.price);
    lemma_enc_i64_val(ov.time);
    lemma_enc_i128_val(ov.margin);
    lemma_enc_i128_val(ov.deal_size);
    lemma_enc_i128_val(ov.deal_price);
    lemma_enc_i128_val(ov.deal_average);
    lemma_enc_i128_val(ov.deal_fee);
    assert(b.subrange(base + 3, base + 19) =~= enc_i128(ov.leverage));
    assert(b.subrange(base + 19, base + 35) =~= enc_i128(ov.size));
    assert(b.subrange(base + 35, base + 51) =~= enc_i128(ov.price));
    assert(b.subrange(base + 51, base + 59) =~= enc_i64(ov.time));
    assert(b.subrange(base + 59, base + 75) =~= enc_i128(ov.margin));
    assert(b.subrange(base + 75, base + 91) =~= enc_i128(ov.deal_size));
    assert(b.subrange(base + 91, base + 107) =~= enc_i128(ov.deal_price));
    assert(b.subrange(base + 107, base + 123) =~= enc_i128(ov.deal_average));
    assert(b.subrange(base + 123, base + 139) =~= enc_i128(ov.deal_fee));
}

/// No order's encoding carries a tag byte outside its range.
proof fn lemma_order_field_bytes(b: Seq<u8>, base: int)
    requires
        0 <= base,
        b.len() == base + 140,
    ensures
        forall|ov: crate::models::OrderView|
            (#[trigger] order_encodable(ov)) && b == enc_order(ov) && base == enc_str(
                ov.symbol,
            ).len() + enc_str(ov.id).len() ==> b[base] == tag_of_type(ov.kind) && b[base + 1]
                == tag_of_side(ov.side) && b[base + 2] == tag_of_bool(ov.reduce) && b[base + 139]
                == tag_of_status(ov.status),
{
    assert forall|ov: crate::models::OrderView|
        (#[trigger] order_encodable(ov)) && b == enc_order(ov) && base == enc_str(
            ov.symbol,
        ).len() + enc_str(ov.id).len() implies b[base] == tag_of_type(ov.kind) && b[base + 1]
        == tag_of_side(ov.side) && b[base + 2] == tag_of_bool(ov.reduce) && b[base + 139]
        == tag_of_status(ov.status) by {
        lemma_order_tail_slices(b, base, ov);
    }
}

/// The decoded fields are the encoded ones: reading the tail back pins
/// every numeric field and tag of any order the bytes encode.
proof fn lemma_order_fields_injective(
    b: Seq<u8>,
    base: int,
    ov: crate::models::OrderView,
    o: crate::models::OrderView,
)
    requires
        0 <= base,
        b.len() == base + 140,
        b == enc_order(ov),
        order_encodable(ov),
        base == enc_str(ov.symbol).len() + enc_str(ov.id).len(),
        ov.symbol == o.symbol,
        ov.id == o.id,
        b[base] == tag_of_type(o.kind),
        b[base + 1] == tag_of_side(o.side),
        b[base + 2] == tag_of_bool(o.reduce),
        shift_i128(o.leverage) == be_val(b.subrange(base + 3, base + 19)),
        shift_i128(o.size) == be_val(b.subrange(base + 19, base + 35)),
        shift_i128(o.price) == be_val(b.subrange(base + 35, base + 51)),
        shift_i64(o.time) == be_val(b.subrange(base + 51, base + 59)),
        shift_i128(o.margin) == be_val(b.subrange(base + 59, base + 75)),
        shift_i128(o.deal_size) == be_val(b.subrange(base + 75, base + 91)),
        shift_i128(o.deal_price) == be_val(b.subrange(base + 91, base + 107)),
        shift_i128(o.deal_average) == be_val(b.subrange(base + 107, base + 123)),
        shift_i128(o.deal_fee) == be_val(b.subrange(base + 123, base + 139)),
        b[base + 139] == tag_of_status(o.status),
    ensures
        ov == o,
{
    lemma_order_tail_slices(b, base, ov);
    lemma_enc_i128_val(ov.leverage);
    lemma_enc_i128_val(ov.size);
    lemma_enc_i128_val(ov.price);
    lemma_enc_i64_val(ov.time);
    lemma_enc_i128_val(ov.margin);
    lemma_enc_i128_val(ov.deal_size);
    lemma_enc_i128_val(ov.deal_price);
    lemma_enc_i128_val(ov.deal_average);
    lemma_enc_i128_val(ov.deal_fee);
    assert(tag_of_type(ov.kind) == tag_of_type(o.kind) ==> ov.kind == o.kind);
    assert(tag_of_side(ov.side) == tag_of_side(o.side) ==> ov.side == o.side);
    assert(tag_of_bool(ov.reduce) == tag_of_bool(o.reduce) ==> ov.reduce == o.reduce);
    assert(tag_of_status(ov.status) == tag_of_status(o.status) ==> ov.status == o.status);
}

/// The decoded order re-encodes to the input bytes.
proof fn lemma_order_decode_fields(b: Seq<u8>, base: int, o: crate::models::OrderView)
    requires
        0 <= base,
        b.len() == base + 140,
        order_encodable(o),
        base == enc_str(o.symbol).len() + enc_str(o.id).len(),
        b.subrange(0, enc_str(o.symbol).len() as int) == enc_str(o.symbol),
        b.subrange(enc_str(o.symbol).len() as int, base) == enc_str(o.id),
        b[base] == tag_of_type(o.kind),
        b[base + 1] == tag_of_side(o.side),
        b[base + 2] == tag_of_bool(o.reduce),
        shift_i128(o.leverage) == be_val(b.subrange(base + 3, base + 19)),
        shift_i128(o.size) == be_val(b.subrange(base + 19, base + 35)),
        shift_i128(o.price) == be_val(b.subrange(base + 35, base + 51)),
        shift_i64(o.time) == be_val(b.subrange(base + 51, base + 59)),
        shift_i128(o.margin) == be_val(b.subrange(base + 59, base + 75)),
        shift_i128(o.deal_size) == be_val(b.subrange(base + 75, base + 91)),
        shift_i128(o.deal_price) == be_val(b.subrange(base + 91, base + 107)),
        shift_i128(o.deal_average) == be_val(b.subrange(base + 107, base + 123)),
        shift_i128(o.deal_fee) == be_val(b.subrange(base + 123, base + 139)),
        b[base + 139] == tag_of_status(o.status),
    ensures
        enc_order(o) == b,
{
    lemma_enc_str_len(o.symbol);
    lemma_enc_str_len(o.id);
    lemma_enc_i128_val(o.leverage);
    lemma_enc_i128_val(o.size);
    lemma_enc_i128_val(o.price);
    lemma_enc_i64_val(o.time);
    lemma_enc_i128_val(o.margin);
    lemma_enc_i128_val(o.deal_size);
    lemma_enc_i128_val(o.deal_price);
    lemma_enc_i128_val(o.deal_average);
    lemma_enc_i128_val(o.deal_fee);
    lemma_be_bytes_be_val(b.subrange(base + 3, base + 19));
    lemma_be_bytes_be_val(b.subrange(base + 19, base + 35));
    lemma_be_bytes_be_val(b.subrange(base + 35, base + 51));
    lemma_be_bytes_be_val(b.subrange(base + 51, base + 59));
    lemma_be_bytes_be_val(b.subrange(base + 59, base + 75));
    lemma_be_bytes_be_val(b.subrange(base + 75, base + 91));
    lemma_be_bytes_be_val(b.subrange(base + 91, base + 107));
    lemma_be_bytes_be_val(b.subrange(base + 107, base + 123));
    lemma_be_bytes_be_val(b.subrange(base + 123, base + 139));
    assert(enc_i128(o.leverage) == b.subrange(base + 3, base + 19));
    assert(enc_i128(o.size) == b.subrange(base + 19, base + 35));
    assert(enc_i128(o.price) == b.subrange(base + 35, base + 51));
    assert(enc_i64(o.time) == b.subrange(base + 51, base + 59));
    assert(enc_i128(o.margin) == b.subrange(base + 59, base + 75));
    assert(enc_i128(o.deal_size) == b.subrange(base + 75, base + 91));
    assert(enc_i128(o.deal_price) == b.subrange(base + 91, base + 107));
    assert(enc_i128(o.deal_average) == b.subrange(base + 107, base + 123));
    assert(enc_i128(o.deal_fee) == b.subrange(base + 123, base + 139));
    assert(enc_order(o) =~= b);
}

} // verus!
