//! Header encoding and growth model.
//!
//! A buffer block is laid out as
//!
//! ```text
//! +-----+---------------+---------------+---------------------+-----+-------+
//! | tag | length (w LE) | capacity (w LE)| payload (length)   | nul | spare |
//! +-----+---------------+---------------+---------------------+-----+-------+
//!                                       ^ payload offset
//! ```
//!
//! where `w` is the field width of the block's size class, the narrowest
//! class able to represent the capacity.
use vstd::prelude::*;

verus! {

/// The largest capacity a buffer may have; asking for more is a fatal
/// allocation error.
pub const MAX_CAPACITY: usize = 0x7fff_ff00;

/// Below this capacity growth doubles the capacity; from it on growth adds
/// half of the capacity.
pub const GROW_THRESHOLD: usize = 0x10_0000;

/// Width of a header field, selected by the stored capacity.
#[derive(PartialEq, Eq, Structural, Clone, Copy, Debug)]
pub enum SizeClass {
    W8,
    W16,
    W32,
}

/// Rank of a class, from narrowest to widest.
pub open spec fn class_rank(c: SizeClass) -> nat {
    match c {
        SizeClass::W8 => 0,
        SizeClass::W16 => 1,
        SizeClass::W32 => 2,
    }
}

/// Number of bytes of one header field in class `c`.
pub open spec fn field_width(c: SizeClass) -> nat {
    match c {
        SizeClass::W8 => 1,
        SizeClass::W16 => 2,
        SizeClass::W32 => 4,
    }
}

/// Tag byte stored first in the header of class `c`.
pub open spec fn class_tag(c: SizeClass) -> u8 {
    match c {
        SizeClass::W8 => 1,
        SizeClass::W16 => 2,
        SizeClass::W32 => 3,
    }
}

/// The class whose tag is `t`, if any.
pub open spec fn class_of_tag(t: u8) -> Option<SizeClass> {
    if t == 1 {
        Some(SizeClass::W8)
    } else if t == 2 {
        Some(SizeClass::W16)
    } else if t == 3 {
        Some(SizeClass::W32)
    } else {
        None
    }
}

/// Largest value a header field of class `c` can hold.
pub open spec fn class_max(c: SizeClass) -> nat {
    (pow256(field_width(c)) - 1) as nat
}

/// Header size of class `c`: the tag and two fields.
pub open spec fn header_size(c: SizeClass) -> nat {
    1 + 2 * field_width(c)
}

/// The narrowest class whose fields can hold `n`.
pub open spec fn class_for(n: nat) -> SizeClass {
    if n <= 0xff {
        SizeClass::W8
    } else if n <= 0xffff {
        SizeClass::W16
    } else {
        SizeClass::W32
    }
}

/// `256` to the power `n`.
pub open spec fn pow256(n: nat) -> nat
    decreases n,
{
    if n == 0 {
        1
    } else {
        256 * pow256((n - 1) as nat)
    }
}

/// Little-endian value of a byte sequence.
pub open spec fn le_value(s: Seq<u8>) -> nat
    decreases s.len(),
{
    if s.len() == 0 {
        0
    } else {
        le_value(s.drop_last()) + pow256((s.len() - 1) as nat) * (s.last() as nat)
    }
}

/// Capacity after making room for `extra` more bytes past `len` in a buffer
/// of capacity `cap`.
pub open spec fn grown_capacity(len: nat, cap: nat, extra: nat) -> nat {
    let need = len + extra;
    if need <= cap {
        cap
    } else {
        let target = if cap < GROW_THRESHOLD {
            2 * cap
        } else {
            cap + cap / 2
        };
        let bounded = if target <= MAX_CAPACITY {
            target
        } else {
            MAX_CAPACITY as nat
        };
        if bounded < need {
            need
        } else {
            bounded
        }
    }
}

pub proof fn lemma_pow256_facts()
    ensures
        pow256(0) == 1,
        pow256(1) == 0x100,
        pow256(2) == 0x1_0000,
        pow256(4) == 0x1_0000_0000,
        pow256(8) == 0x1_0000_0000_0000_0000,
{
    reveal_with_fuel(pow256, 9);
}

/// The class chosen for `n` can hold `n`, and no narrower class can.
pub proof fn lemma_class_for_narrowest(n: nat)
    requires
        n <= MAX_CAPACITY,
    ensures
        n <= class_max(class_for(n)),
        forall|c: SizeClass| n <= class_max(c) ==> class_rank(class_for(n)) <= class_rank(c),
{
    lemma_pow256_facts();
}

/// Class selection never moves to a narrower class as the value grows.
pub proof fn lemma_class_for_monotonic(a: nat, b: nat)
    requires
        a <= b,
    ensures
        class_rank(class_for(a)) <= class_rank(class_for(b)),
{
}

pub proof fn lemma_le_value_bound(s: Seq<u8>)
    ensures
        le_value(s) < pow256(s.len()),
    decreases s.len(),
{
    if s.len() > 0 {
        let d = s.drop_last();
        lemma_le_value_bound(d);
        let p = pow256(d.len());
        let v = le_value(d);
        let l = s.last() as nat;
        assert(pow256(s.len()) == 256 * p);
        assert(v + p * l < 256 * p) by (nonlinear_arith)
            requires
                v < p,
                l <= 255,
        ;
    }
}

pub proof fn lemma_class_tag_inverse(c: SizeClass)
    ensures
        class_of_tag(class_tag(c)) == Some(c),
{
}

/// The tag byte of class `c`.
pub fn tag_of(c: SizeClass) -> (r: u8)
    ensures
        r == class_tag(c),
{
    match c {
        SizeClass::W8 => 1,
        SizeClass::W16 => 2,
        SizeClass::W32 => 3,
    }
}

/// Reads a class back from its tag byte.
pub fn class_from_tag(t: u8) -> (r: Option<SizeClass>)
    ensures
        r == class_of_tag(t),
{
    if t == 1 {
        Some(SizeClass::W8)
    } else if t == 2 {
        Some(SizeClass::W16)
    } else if t == 3 {
        Some(SizeClass::W32)
    } else {
        None
    }
}

/// Field width in bytes of class `c`.
pub fn width_of(c: SizeClass) -> (r: usize)
    ensures
        r == field_width(c),
{
    match c {
        SizeClass::W8 => 1,
        SizeClass::W16 => 2,
        SizeClass::W32 => 4,
    }
}

/// Header size in bytes of class `c`.
pub fn header_len(c: SizeClass) -> (r: usize)
    ensures
        r == header_size(c),
{
    1 + 2 * width_of(c)
}

/// Selects the narrowest class able to represent `n`.
pub fn select_class(n: usize) -> (r: SizeClass)
    requires
        n <= MAX_CAPACITY,
    ensures
        r == class_for(n as nat),
        n <= class_max(r),
{
    proof {
        lemma_class_for_narrowest(n as nat);
    }
    if n <= 0xff {
        SizeClass::W8
    } else if n <= 0xffff {
        SizeClass::W16
    } else {
        SizeClass::W32
    }
}

/// Computes the capacity a buffer of length `len` and capacity `cap` gets
/// when room for `extra` more bytes is made.
pub fn grow_capacity(len: usize, cap: usize, extra: usize) -> (r: usize)
    requires
        len <= cap,
        cap <= MAX_CAPACITY,
        len + extra <= MAX_CAPACITY,
    ensures
        r == grown_capacity(len as nat, cap as nat, extra as nat),
        r >= len + extra,
        r >= cap,
        r <= MAX_CAPACITY,
{
    let need = len + extra;
    if need <= cap {
        return cap;
    }
    let target: usize = if cap < GROW_THRESHOLD {
        2 * cap
    } else {
        cap + cap / 2
    };
    let bounded: usize = if target <= MAX_CAPACITY {
        target
    } else {
        MAX_CAPACITY
    };
    if bounded < need {
        need
    } else {
        bounded
    }
}

/// Reads the `w`-byte little-endian field that starts at `at`.
pub fn read_le(block: &Vec<u8>, at: usize, w: usize) -> (r: u64)
    requires
        at + w <= block@.len(),
        w <= 8,
    ensures
        r as nat == le_value(block@.subrange(at as int, at + w)),
{
    let n: usize = block.len();
    let mut acc: u128 = 0;
    let mut pow: u128 = 1;
    let mut i: usize = 0;
    proof {
        lemma_pow256_facts();
    }
    while i < w
        invariant
            at + w <= block@.len(),
            n == block@.len(),
            w <= 8,
            i <= w,
            acc as nat == le_value(block@.subrange(at as int, at + i)),
            pow as nat == pow256(i as nat),
            pow256(8) == 0x1_0000_0000_0000_0000,
        decreases w - i,
    {
        let ghost s = block@.subrange(at as int, at + i + 1);
        proof {
            assert(s.drop_last() == block@.subrange(at as int, at + i));
            lemma_le_value_bound(s.drop_last());
            lemma_pow256_monotonic(i as nat, 8);
            let b = block@[at + i] as u128;
            assert(pow * b <= 0x1_0000_0000_0000_0000u128 * 255) by (nonlinear_arith)
                requires pow <= 0x1_0000_0000_0000_0000u128, b <= 255;
            assert(acc < pow);
        }
        acc = acc + pow * (block[at + i] as u128);
        pow = pow * 256;
        i = i + 1;
    }
    proof {
        lemma_le_value_bound(block@.subrange(at as int, at + w));
        lemma_pow256_monotonic(w as nat, 8);
    }
    acc as u64
}

pub proof fn lemma_pow256_monotonic(a: nat, b: nat)
    requires
        a <= b,
    ensures
        pow256(a) <= pow256(b),
        pow256(a) >= 1,
    decreases b,
{
    if b > a {
        lemma_pow256_monotonic(a, (b - 1) as nat);
    } else if a > 0 {
        lemma_pow256_monotonic((a - 1) as nat, (a - 1) as nat);
    }
}

/// Writes `v` as a `w`-byte little-endian field starting at `at`, leaving
/// every other byte of the block as it was.
pub fn write_le(block: &mut Vec<u8>, at: usize, w: usize, v: u64)
    requires
        at + w <= old(block)@.len(),
        w <= 8,
        v < pow256(w as nat),
    ensures
        final(block)@.len() == old(block)@.len(),
        le_value(final(block)@.subrange(at as int, at + w)) == v,
        forall|j: int|
            0 <= j < old(block)@.len() && !(at <= j < at + w) ==> final(block)@[j] == old(block)@[j],
{
    let n: usize = block.len();
    let mut rem: u64 = v;
    let mut i: usize = 0;
    proof {
        assert(block@.subrange(at as int, at as int).len() == 0);
        assert(pow256(0) == 1);
    }
    while i < w
        invariant
            at + w <= block@.len(),
            block@.len() == old(block)@.len(),
            n == block@.len(),
            w <= 8,
            i <= w,
            v == le_value(block@.subrange(at as int, at + i)) + pow256(i as nat) * rem,
            rem < pow256((w - i) as nat),
            forall|j: int|
                0 <= j < old(block)@.len() && !(at <= j < at + w) ==> block@[j] == old(block)@[j],
        decreases w - i,
    {
        let ghost before = block@;
        let b: u8 = (rem % 256) as u8;
        block.set(at + i, b);
        proof {
            let s = block@.subrange(at as int, at + i + 1);
            assert(s.drop_last() == before.subrange(at as int, at + i));
            assert(s.last() == b);
            let p = pow256(i as nat);
            let q = rem / 256;
            assert(rem == 256 * q + b) by (nonlinear_arith)
                requires b == rem % 256, q == rem / 256;
            assert(p * rem == p * b + (256 * p) * q) by (nonlinear_arith)
                requires rem == 256 * q + b;
            assert(pow256((i + 1) as nat) == 256 * p);
            assert(pow256((w - i) as nat) == 256 * pow256((w - i - 1) as nat));
            assert(q < pow256((w - i - 1) as nat)) by (nonlinear_arith)
                requires rem < 256 * pow256((w - i - 1) as nat), q == rem / 256;
        }
        rem = rem / 256;
        i = i + 1;
    }
    proof {
        assert(pow256(0) == 1);
    }
}

} // verus!

verus! {

/// Capacity after one reallocation of a full buffer of capacity `c`.
pub open spec fn next_capacity(c: nat) -> nat {
    grown_capacity(c, c, 1)
}

/// Number of reallocations a buffer of capacity `c` goes through until it
/// can hold `n` bytes, growing one reallocation at a time.
pub open spec fn growth_steps(c: nat, n: nat) -> nat
    decreases MAX_CAPACITY - c,
{
    if n <= c || n > MAX_CAPACITY {
        0
    } else {
        1 + growth_steps(next_capacity(c), n)
    }
}

/// Number of reallocations made while appending `k` bytes one at a time to
/// a buffer of length `len` and capacity `cap`: one for each append that
/// finds no room.
pub open spec fn append_reallocs(len: nat, cap: nat, k: nat) -> nat
    decreases k,
{
    if k == 0 {
        0
    } else if len + 1 <= cap {
        append_reallocs(len + 1, cap, (k - 1) as nat)
    } else {
        1 + append_reallocs(len + 1, grown_capacity(len, cap, 1), (k - 1) as nat)
    }
}

/// `2` to the power `m`.
pub open spec fn pow2(m: nat) -> nat
    decreases m,
{
    if m == 0 {
        1
    } else {
        2 * pow2((m - 1) as nat)
    }
}

proof fn lemma_append_reallocs_steps(len: nat, cap: nat, k: nat)
    requires
        len <= cap,
        len + k <= MAX_CAPACITY,
    ensures
        append_reallocs(len, cap, k) == growth_steps(cap, len + k),
    decreases k,
{
    if k > 0 {
        if len + 1 <= cap {
            lemma_append_reallocs_steps(len + 1, cap, (k - 1) as nat);
        } else {
            let c1 = grown_capacity(len, cap, 1);
            assert(c1 == next_capacity(cap));
            lemma_append_reallocs_steps(len + 1, c1, (k - 1) as nat);
        }
    }
}

/// Two reallocations at least double a capacity, unless the second one
/// already reaches `n`.
proof fn lemma_two_steps(c: nat, n: nat)
    requires
        1 <= c < n <= MAX_CAPACITY,
        next_capacity(c) < n,
    ensures
        next_capacity(next_capacity(c)) >= 2 * c || next_capacity(next_capacity(c)) >= n,
{
    let c1 = next_capacity(c);
    let c2 = next_capacity(c1);
    if c >= GROW_THRESHOLD {
        assert(c1 >= c + c / 2);
        if c1 + c1 / 2 <= MAX_CAPACITY {
            assert(c2 >= c1 + c1 / 2);
            assert(c1 + c1 / 2 >= 2 * c);
        }
    }
}

proof fn lemma_steps_bound(c: nat, n: nat, m: nat)
    requires
        1 <= c,
        n <= MAX_CAPACITY,
        n <= c * pow2(m),
    ensures
        growth_steps(c, n) <= 2 * m,
    decreases m,
{
    if n > c {
        if m == 0 {
            assert(pow2(0) == 1);
            assert(c * pow2(0) == c) by (nonlinear_arith)
                requires pow2(0) == 1;
        } else {
            let c1 = next_capacity(c);
            if n > c1 {
                let c2 = next_capacity(c1);
                assert(growth_steps(c1, n) == 1 + growth_steps(c2, n));
                if n > c2 {
                    lemma_two_steps(c, n);
                    let p = pow2((m - 1) as nat);
                    assert(c * pow2(m) == (2 * c) * p) by (nonlinear_arith)
                        requires pow2(m) == 2 * p;
                    assert((2 * c) * p <= c2 * p) by (nonlinear_arith)
                        requires 2 * c <= c2;
                    lemma_steps_bound(c2, n, (m - 1) as nat);
                }
            }
        }
    }
}

/// Appending `k` bytes one at a time to an empty buffer reallocates at most
/// `2m + 1` times when `k <= 2^m`: logarithmically many times in `k`.
pub proof fn lemma_append_reallocs_logarithmic(k: nat, m: nat)
    requires
        k <= MAX_CAPACITY,
        k <= pow2(m),
    ensures
        append_reallocs(0, 0, k) <= 2 * m + 1,
{
    lemma_append_reallocs_steps(0, 0, k);
    if k > 0 {
        assert(next_capacity(0) == 1);
        lemma_steps_bound(1, k, m);
    }
}

/// A reallocation of a full buffer grows its capacity by at least half,
/// up to the largest capacity.
pub proof fn lemma_growth_ratio(c: nat)
    requires
        c < MAX_CAPACITY,
    ensures
        next_capacity(c) > c,
        next_capacity(c) >= c + c / 2 || next_capacity(c) == MAX_CAPACITY,
{
}

} // verus!

verus! {

/// The `w`-byte little-endian encoding of `v`.
pub open spec fn le_bytes(v: nat, w: nat) -> Seq<u8>
    decreases w,
{
    if w == 0 {
        Seq::empty()
    } else {
        let p = pow256((w - 1) as nat);
        le_bytes(v % p, (w - 1) as nat).push((v / p) as u8)
    }
}

/// Decoding the encoding of a value that fits gives the value back.
pub proof fn lemma_le_bytes(v: nat, w: nat)
    requires
        v < pow256(w),
    ensures
        le_bytes(v, w).len() == w,
        le_value(le_bytes(v, w)) == v,
    decreases w,
{
    if w > 0 {
        let p = pow256((w - 1) as nat);
        lemma_pow256_monotonic(0, (w - 1) as nat);
        let q = v / p;
        let r = v % p;
        vstd::arithmetic::div_mod::lemma_fundamental_div_mod(v as int, p as int);
        assert(q < 256) by (nonlinear_arith)
            requires v < 256 * p, v == p * q + r, 0 <= r, p >= 1;
        lemma_le_bytes(r, (w - 1) as nat);
        let s = le_bytes(v, w);
        assert(s.drop_last() =~= le_bytes(r, (w - 1) as nat));
    }
}

/// Two byte sequences of one length with one little-endian value are equal.
pub proof fn lemma_le_value_injective(s: Seq<u8>, t: Seq<u8>)
    requires
        s.len() == t.len(),
        le_value(s) == le_value(t),
    ensures
        s == t,
    decreases s.len(),
{
    if s.len() > 0 {
        let p = pow256((s.len() - 1) as nat);
        lemma_pow256_monotonic(0, (s.len() - 1) as nat);
        lemma_le_value_bound(s.drop_last());
        lemma_le_value_bound(t.drop_last());
        let v = le_value(s) as int;
        let (a, b) = (s.last() as int, t.last() as int);
        assert(v == le_value(s.drop_last()) + p * a);
        assert(v == le_value(t.drop_last()) + p * b);
        assert(p * a == a * p && p * b == b * p) by (nonlinear_arith);
        vstd::arithmetic::div_mod::lemma_fundamental_div_mod_converse(
            v,
            p as int,
            s.last() as int,
            le_value(s.drop_last()) as int,
        );
        vstd::arithmetic::div_mod::lemma_fundamental_div_mod_converse(
            v,
            p as int,
            t.last() as int,
            le_value(t.drop_last()) as int,
        );
        lemma_le_value_injective(s.drop_last(), t.drop_last());
        assert(s =~= s.drop_last().push(s.last()));
        assert(t =~= t.drop_last().push(t.last()));
    }
}

} // verus!
