//! Storage slot identifiers and their order-preserving byte encoding.
//!
//! An index is a signed 64-bit integer. Its key is the big-endian encoding
//! of the index biased by 2^63 (two's complement with the sign bit flipped),
//! so that comparing keys byte by byte orders them as the integers are ordered,
//! across zero included.
use vstd::arithmetic::div_mod::{
    lemma_div_multiples_vanish, lemma_fundamental_div_mod, lemma_fundamental_div_mod_converse,
    lemma_mod_bound, lemma_small_mod,
};
use vstd::prelude::*;

verus! {

/// A storage slot of a list.
pub type ListIndex = i64;

/// Number of bytes in the key of an index.
pub const INDEX_WIDTH: usize = 8;

/// The bias added to an index before it is written big-endian: 2^63.
pub const INDEX_BIAS: u64 = 0x8000_0000_0000_0000;

/// 256 to the power `n`.
pub open spec fn pow256(n: nat) -> nat
    decreases n,
{
    if n == 0 {
        1
    } else {
        256 * pow256((n - 1) as nat)
    }
}

/// The number that a byte string denotes when read big-endian.
pub open spec fn be_value(s: Seq<u8>) -> nat
    decreases s.len(),
{
    if s.len() == 0 {
        0
    } else {
        s[0] as nat * pow256((s.len() - 1) as nat) + be_value(s.skip(1))
    }
}

/// The `n` bytes that write `v` big-endian (its digits in base 256, most
/// significant first; digits beyond the `n`th are dropped).
pub open spec fn be_bytes(v: nat, n: nat) -> Seq<u8>
    decreases n,
{
    if n == 0 {
        Seq::empty()
    } else {
        let p = pow256((n - 1) as nat);
        seq![((v / p) % 256) as u8] + be_bytes((v % p) as nat, (n - 1) as nat)
    }
}

/// Strict lexicographic order on byte strings, as a byte-ordered store
/// compares its keys.
pub open spec fn bytes_lt(a: Seq<u8>, b: Seq<u8>) -> bool
    decreases a.len(),
{
    if a.len() == 0 {
        b.len() > 0
    } else if b.len() == 0 {
        false
    } else {
        a[0] < b[0] || (a[0] == b[0] && bytes_lt(a.skip(1), b.skip(1)))
    }
}

/// The index shifted into `[0, 2^64)`.
pub open spec fn biased(x: i64) -> nat {
    (x as int + INDEX_BIAS as int) as nat
}

/// The key of an index.
pub open spec fn index_key(x: i64) -> Seq<u8> {
    be_bytes(biased(x), INDEX_WIDTH as nat)
}

/// The index that a key of `INDEX_WIDTH` bytes stands for.
pub open spec fn index_of_key(k: Seq<u8>) -> i64 {
    (be_value(k) - INDEX_BIAS as int) as i64
}

pub proof fn lemma_pow256_positive(n: nat)
    ensures
        pow256(n) > 0,
    decreases n,
{
    if n > 0 {
        lemma_pow256_positive((n - 1) as nat);
    }
}

pub proof fn lemma_pow256_monotonic(i: nat, j: nat)
    requires
        i <= j,
    ensures
        pow256(i) <= pow256(j),
    decreases j,
{
    if i < j {
        lemma_pow256_monotonic(i, (j - 1) as nat);
    }
}

pub proof fn lemma_pow256_values()
    ensures
        pow256(7) == 0x100_0000_0000_0000,
        pow256(8) == 0x1_0000_0000_0000_0000,
{
    reveal_with_fuel(pow256, 9);
}

/// A byte string of length `n` denotes a number below 256^n.
pub proof fn lemma_be_value_bound(s: Seq<u8>)
    ensures
        be_value(s) < pow256(s.len()),
    decreases s.len(),
{
    if s.len() > 0 {
        let p = pow256((s.len() - 1) as nat);
        lemma_be_value_bound(s.skip(1));
        let d = s[0] as int;
        assert(d * p + p <= 256 * p) by (nonlinear_arith)
            requires
                d <= 255,
        ;
    }
}

/// Reading one more byte multiplies by 256 and adds it.
pub proof fn lemma_be_value_push(a: Seq<u8>, x: u8)
    ensures
        be_value(a.push(x)) == be_value(a) * 256 + x,
    decreases a.len(),
{
    if a.len() == 0 {
        assert(a.push(x).skip(1) =~= Seq::<u8>::empty());
        assert(pow256(0) == 1);
        assert(be_value(Seq::<u8>::empty()) == 0);
        assert(be_value(a.push(x)) == x as nat * pow256(0) + be_value(Seq::<u8>::empty()));
        assert(be_value(a) == 0);
    } else {
        let p = pow256((a.len() - 1) as nat);
        assert(a.push(x).skip(1) =~= a.skip(1).push(x));
        lemma_be_value_push(a.skip(1), x);
        assert(pow256(a.len()) == 256 * p);
        let d = a[0] as int;
        let rest = be_value(a.skip(1)) as int;
        assert(a.push(x)[0] == a[0]);
        assert(be_value(a.push(x)) == d * pow256(a.len()) + be_value(a.skip(1).push(x)));
        assert(be_value(a) == d * p + rest);
        assert(d * (256 * p) + (rest * 256 + x) == (d * p + rest) * 256 + x) by (nonlinear_arith);
    }
}

/// Writing a number that fits in `n` bytes and reading it back gives it again.
pub proof fn lemma_be_value_of_bytes(v: nat, n: nat)
    requires
        v < pow256(n),
    ensures
        be_bytes(v, n).len() == n,
        be_value(be_bytes(v, n)) == v,
    decreases n,
{
    if n > 0 {
        let p = pow256((n - 1) as nat);
        lemma_pow256_positive((n - 1) as nat);
        let q = v as int / p as int;
        let r = v as int % p as int;
        lemma_fundamental_div_mod(v as int, p as int);
        lemma_mod_bound(v as int, p as int);
        assert(q < 256) by (nonlinear_arith)
            requires
                v == p * q + r,
                0 <= r,
                v < 256 * p,
                p > 0,
        ;
        assert(q >= 0) by (nonlinear_arith)
            requires
                v == p * q + r,
                r < p,
                p > 0,
                v >= 0,
        ;
        lemma_small_mod(q as nat, 256);
        lemma_be_value_of_bytes(r as nat, (n - 1) as nat);
        let rest = be_bytes(r as nat, (n - 1) as nat);
        assert(be_bytes(v, n).skip(1) =~= rest);
        assert(be_value(be_bytes(v, n)) == q * p + r);
    }
}

/// Reading a byte string and writing the number back in as many bytes gives it again.
pub proof fn lemma_bytes_of_be_value(s: Seq<u8>)
    ensures
        be_bytes(be_value(s), s.len()) == s,
    decreases s.len(),
{
    if s.len() > 0 {
        let n = s.len();
        let p = pow256((n - 1) as nat);
        let r = be_value(s.skip(1));
        lemma_be_value_bound(s.skip(1));
        lemma_fundamental_div_mod_converse(be_value(s) as int, p as int, s[0] as int, r as int);
        lemma_small_mod(s[0] as nat, 256);
        lemma_bytes_of_be_value(s.skip(1));
        assert(be_bytes(be_value(s), n) =~= s);
    }
}

/// For strings of one length, byte order is the order of the numbers they denote.
pub proof fn lemma_bytes_lt_is_value_lt(a: Seq<u8>, b: Seq<u8>)
    requires
        a.len() == b.len(),
    ensures
        bytes_lt(a, b) <==> be_value(a) < be_value(b),
    decreases a.len(),
{
    if a.len() > 0 {
        let p = pow256((a.len() - 1) as nat);
        let ra = be_value(a.skip(1));
        let rb = be_value(b.skip(1));
        lemma_be_value_bound(a.skip(1));
        lemma_be_value_bound(b.skip(1));
        lemma_bytes_lt_is_value_lt(a.skip(1), b.skip(1));
        let da = a[0] as int;
        let db = b[0] as int;
        if da < db {
            assert(da * p + ra < db * p + rb) by (nonlinear_arith)
                requires
                    da + 1 <= db,
                    ra < p,
                    rb >= 0,
            ;
        } else if db < da {
            assert(db * p + rb < da * p + ra) by (nonlinear_arith)
                requires
                    db + 1 <= da,
                    rb < p,
                    ra >= 0,
            ;
        }
    }
}

/// Keys of indices: decoding undoes encoding, every key has `INDEX_WIDTH`
/// bytes, and keys compare byte by byte exactly as their indices compare.
pub proof fn lemma_index_key_order(x: i64, y: i64)
    ensures
        index_key(x).len() == INDEX_WIDTH,
        index_of_key(index_key(x)) == x,
        bytes_lt(index_key(x), index_key(y)) <==> x < y,
        index_key(x) == index_key(y) <==> x == y,
{
    lemma_pow256_values();
    lemma_be_value_of_bytes(biased(x), 8);
    lemma_be_value_of_bytes(biased(y), 8);
    lemma_bytes_lt_is_value_lt(index_key(x), index_key(y));
}

/// Every key of `INDEX_WIDTH` bytes is the key of exactly one index.
pub proof fn lemma_index_key_onto(k: Seq<u8>)
    requires
        k.len() == INDEX_WIDTH,
    ensures
        index_key(index_of_key(k)) == k,
{
    lemma_pow256_values();
    lemma_be_value_bound(k);
    lemma_bytes_of_be_value(k);
}

/// Writes `v` as eight big-endian bytes.
pub fn be_encode_u64(v: u64) -> (r: Vec<u8>)
    ensures
        r@ == be_bytes(v as nat, 8),
{
    proof {
        lemma_pow256_values();
    }
    let mut out: Vec<u8> = Vec::new();
    let mut rem: u64 = v;
    let mut p: u64 = 0x100_0000_0000_0000;
    let mut k: usize = 8;
    while k > 0
        invariant
            k <= 8,
            rem < pow256(k as nat),
            k > 0 ==> p == pow256((k - 1) as nat),
            out@ + be_bytes(rem as nat, k as nat) == be_bytes(v as nat, 8),
        decreases k,
    {
        proof {
            lemma_pow256_positive((k - 1) as nat);
            lemma_fundamental_div_mod(rem as int, p as int);
            lemma_mod_bound(rem as int, p as int);
            let q = rem as int / p as int;
            let r = rem as int % p as int;
            assert(0 <= q < 256) by (nonlinear_arith)
                requires
                    rem == p * q + r,
                    0 <= r < p,
                    rem < 256 * p,
                    p > 0,
            ;
            lemma_small_mod(q as nat, 256);
        }
        let b: u8 = (rem / p) as u8;
        let ghost tail = be_bytes((rem % p) as nat, (k - 1) as nat);
        assert(be_bytes(rem as nat, k as nat) == seq![b] + tail);
        assert(out@.push(b) + tail =~= out@ + (seq![b] + tail));
        out.push(b);
        rem = rem % p;
        if k > 1 {
            proof {
                lemma_div_multiples_vanish(pow256((k - 2) as nat) as int, 256);
            }
            p = p / 256;
        }
        k = k - 1;
    }
    assert(out@ =~= out@ + be_bytes(rem as nat, 0));
    out
}

/// Reads the eight bytes of `s` from `start` on as a big-endian number.
pub fn be_decode_u64(s: &[u8], start: usize) -> (r: u64)
    requires
        start + 8 <= s@.len(),
    ensures
        r == be_value(s@.subrange(start as int, start + 8)),
{
    proof {
        lemma_pow256_values();
    }
    let n: usize = s.len();
    let mut acc: u64 = 0;
    let mut i: usize = 0;
    assert(s@.subrange(start as int, start as int) =~= Seq::<u8>::empty());
    while i < 8
        invariant
            i <= 8,
            start + 8 <= n,
            n == s@.len(),
            acc == be_value(s@.subrange(start as int, start + i)),
        decreases 8 - i,
    {
        let ghost pre = s@.subrange(start as int, start + i);
        proof {
            lemma_be_value_bound(pre);
            lemma_pow256_values();
            lemma_pow256_monotonic(i as nat, 7);
            assert(pre.len() == i);
            assert(acc < 0x100_0000_0000_0000);
            lemma_be_value_push(pre, s@[start + i]);
            assert(s@.subrange(start as int, start + i + 1) =~= pre.push(s@[start + i]));
        }
        acc = acc * 256 + s[start + i] as u64;
        i = i + 1;
    }
    acc
}

/// The key of an index.
pub fn encode_index(x: ListIndex) -> (r: Vec<u8>)
    ensures
        r@ == index_key(x),
        r@.len() == INDEX_WIDTH,
{
    let v: u64 = if x >= 0 {
        x as u64 + INDEX_BIAS
    } else {
        (x + i64::MAX + 1) as u64
    };
    proof {
        lemma_pow256_values();
        lemma_be_value_of_bytes(v as nat, 8);
    }
    be_encode_u64(v)
}

/// The index whose key is `bytes`; `None` unless it has `INDEX_WIDTH` bytes.
pub fn decode_index(bytes: &[u8]) -> (r: Option<ListIndex>)
    ensures
        r == (if bytes@.len() == INDEX_WIDTH {
            Some(index_of_key(bytes@))
        } else {
            None::<i64>
        }),
{
    if bytes.len() != INDEX_WIDTH {
        return None;
    }
    assert(bytes@.subrange(0, INDEX_WIDTH as int) =~= bytes@);
    Some(index_at(bytes, 0))
}

/// The index whose key is the `INDEX_WIDTH` bytes of `s` from `start` on.
pub fn index_at(s: &[u8], start: usize) -> (r: ListIndex)
    requires
        start + INDEX_WIDTH <= s@.len(),
    ensures
        r == index_of_key(s@.subrange(start as int, start + INDEX_WIDTH)),
{
    let v = be_decode_u64(s, start);
    proof {
        lemma_pow256_values();
        lemma_be_value_bound(s@.subrange(start as int, start + INDEX_WIDTH));
    }
    if v >= INDEX_BIAS {
        (v - INDEX_BIAS) as i64
    } else {
        v as i64 - i64::MAX - 1
    }
}

} // verus!
