//! Little-endian two's-complement integer encoding, as NeoVM immediates use it.

use vstd::prelude::*;

verus! {

/// 256 raised to the power `n`.
pub open spec fn pow256(n: nat) -> nat
    decreases n,
{
    if n == 0 {
        1
    } else {
        256 * pow256((n - 1) as nat)
    }
}

/// The unsigned value of little-endian bytes.
pub open spec fn le_unsigned(s: Seq<u8>) -> nat
    decreases s.len(),
{
    if s.len() == 0 {
        0
    } else {
        s[0] as nat + 256 * le_unsigned(s.drop_first())
    }
}

/// The two's-complement value of little-endian bytes.
pub open spec fn le_signed(s: Seq<u8>) -> int {
    if s.len() > 0 && s.last() >= 0x80 {
        le_unsigned(s) - pow256(s.len())
    } else {
        le_unsigned(s) as int
    }
}

/// The `n` low-order little-endian bytes of `u`.
pub open spec fn le_encode(u: nat, n: nat) -> Seq<u8>
    decreases n,
{
    if n == 0 {
        Seq::empty()
    } else {
        seq![(u % 256) as u8] + le_encode(u / 256, (n - 1) as nat)
    }
}

/// Whether `v` is representable as an `n`-byte two's-complement integer.
pub open spec fn fits_signed(v: int, n: nat) -> bool {
    n > 0 && -(pow256(n) / 2) <= v < pow256(n) / 2
}

/// The unsigned residue that encodes `v` in `n` bytes.
pub open spec fn twos(v: int, n: nat) -> nat {
    if v < 0 {
        (v + pow256(n)) as nat
    } else {
        v as nat
    }
}

/// The `n`-byte little-endian two's-complement encoding of `v`.
pub open spec fn le_encode_signed(v: int, n: nat) -> Seq<u8> {
    le_encode(twos(v, n), n)
}

pub proof fn lemma_pow256_positive(n: nat)
    ensures
        pow256(n) >= 1,
    decreases n,
{
    if n > 0 {
        lemma_pow256_positive((n - 1) as nat);
    }
}

pub proof fn lemma_pow256_add(a: nat, b: nat)
    ensures
        pow256(a + b) == pow256(a) * pow256(b),
    decreases a,
{
    if a > 0 {
        let a1 = (a - 1) as nat;
        lemma_pow256_add(a1, b);
        assert(pow256(a) == 256 * pow256(a1));
        assert(a1 + b + 1 == a + b);
        assert(pow256(a + b) == 256 * pow256(a1 + b));
        assert(256 * (pow256(a1) * pow256(b)) == (256 * pow256(a1)) * pow256(b)) by (nonlinear_arith);
    } else {
        assert(pow256(0) == 1);
        assert(a + b == b);
    }
}

pub proof fn lemma_pow256_values()
    ensures
        pow256(1) == 0x100,
        pow256(2) == 0x1_0000,
        pow256(4) == 0x1_0000_0000,
        pow256(8) == 0x1_0000_0000_0000_0000,
        pow256(15) == 0x1_00_0000_0000_0000_0000_0000_0000_0000int,
        pow256(16) == 0x1_0000_0000_0000_0000_0000_0000_0000_0000int,
{
    assert(pow256(0) == 1);
    assert(pow256(1) == 256 * pow256(0));
    lemma_pow256_add(1, 1);
    assert(pow256(2) == 0x1_0000);
    lemma_pow256_add(2, 2);
    assert(pow256(4) == 0x1_0000_0000);
    lemma_pow256_add(4, 4);
    assert(pow256(8) == 0x1_0000_0000_0000_0000);
    lemma_pow256_add(8, 8);
    assert(pow256(16) == 0x1_0000_0000_0000_0000 * 0x1_0000_0000_0000_0000int);
    lemma_pow256_add(8, 4);
    assert(pow256(12) == 0x1_0000_0000_0000_0000 * 0x1_0000_0000int);
    lemma_pow256_add(12, 2);
    assert(pow256(14) == pow256(12) * 0x1_0000);
    lemma_pow256_add(14, 1);
    assert(pow256(15) == pow256(14) * 0x100);
}

pub proof fn lemma_le_encode_len(u: nat, n: nat)
    ensures
        le_encode(u, n).len() == n,
    decreases n,
{
    if n > 0 {
        lemma_le_encode_len(u / 256, (n - 1) as nat);
    }
}

pub proof fn lemma_le_unsigned_bound(s: Seq<u8>)
    ensures
        le_unsigned(s) < pow256(s.len()),
    decreases s.len(),
{
    if s.len() > 0 {
        lemma_le_unsigned_bound(s.drop_first());
        let r = le_unsigned(s.drop_first());
        let p = pow256((s.len() - 1) as nat);
        assert(s[0] as nat + 256 * r < 256 * p) by (nonlinear_arith)
            requires
                r < p,
                s[0] < 256,
        ;
    }
}

/// Prepending a byte shifts the rest up by one byte.
pub proof fn lemma_le_unsigned_cons(b: u8, t: Seq<u8>)
    ensures
        le_unsigned(seq![b] + t) == b as nat + 256 * le_unsigned(t),
{
    let s = seq![b] + t;
    assert(s.drop_first() =~= t);
}

/// Splitting the encoding at byte `a`.
pub proof fn lemma_le_encode_split(u: nat, a: nat, b: nat)
    ensures
        le_encode(u, a + b) == le_encode(u, a) + le_encode(u / pow256(a), b),
    decreases a,
{
    if a == 0 {
        assert(pow256(0) == 1);
        assert(u / 1 == u);
        assert(le_encode(u, a) =~= Seq::<u8>::empty());
        assert(le_encode(u, a) + le_encode(u / pow256(a), b) =~= le_encode(u, a + b));
    } else {
        lemma_le_encode_split(u / 256, (a - 1) as nat, b);
        lemma_pow256_positive((a - 1) as nat);
        assert(u / 256 / pow256((a - 1) as nat) == u / (256 * pow256((a - 1) as nat))) by {
            vstd::arithmetic::div_mod::lemma_div_denominator(u as int, 256, pow256((a - 1) as nat) as int);
        }
        assert(le_encode(u, a + b) =~= le_encode(u, a) + le_encode(u / pow256(a), b));
    }
}

/// Encoding then decoding an in-range value gives it back.
pub proof fn lemma_le_roundtrip(u: nat, n: nat)
    requires
        u < pow256(n),
    ensures
        le_unsigned(le_encode(u, n)) == u,
        le_encode(u, n).len() == n,
    decreases n,
{
    lemma_le_encode_len(u, n);
    if n > 0 {
        let p = pow256((n - 1) as nat);
        assert(u / 256 < p) by (nonlinear_arith)
            requires
                u < 256 * p,
        ;
        lemma_le_roundtrip(u / 256, (n - 1) as nat);
        lemma_le_unsigned_cons((u % 256) as u8, le_encode(u / 256, (n - 1) as nat));
        assert(u == (u % 256) + 256 * (u / 256)) by (nonlinear_arith);
    }
}

/// Decoding then encoding gives the bytes back.
pub proof fn lemma_le_decode_roundtrip(s: Seq<u8>)
    ensures
        le_encode(le_unsigned(s), s.len()) == s,
    decreases s.len(),
{
    if s.len() > 0 {
        let t = s.drop_first();
        lemma_le_decode_roundtrip(t);
        let u = le_unsigned(s);
        assert(u == s[0] as nat + 256 * le_unsigned(t));
        assert(u % 256 == s[0] as nat && u / 256 == le_unsigned(t)) by (nonlinear_arith)
            requires
                u == s[0] as nat + 256 * le_unsigned(t),
                s[0] < 256,
        ;
        assert(le_encode(u, s.len()) =~= s);
    }
}

/// The last encoded byte is the top part of the value.
pub proof fn lemma_le_encode_last(u: nat, n: nat)
    requires
        n > 0,
        u < pow256(n),
    ensures
        le_encode(u, n).last() as nat == u / pow256((n - 1) as nat),
{
    lemma_le_encode_split(u, (n - 1) as nat, 1);
    lemma_le_encode_len(u, (n - 1) as nat);
    lemma_pow256_positive((n - 1) as nat);
    let p = pow256((n - 1) as nat);
    assert(u / p < 256) by (nonlinear_arith)
        requires
            u < 256 * p,
            p >= 1,
    ;
    let last = le_encode(u / p, 1);
    lemma_le_encode_len(u / p, 1);
    assert((n - 1) as nat + 1 == n);
    assert(le_encode(u, n) == le_encode(u, (n - 1) as nat) + last);
    assert(last[0] as nat == (u / p) % 256);
    assert(le_encode(u, n).last() == last[0]);
}

/// The sign byte of little-endian bytes decides the upper half of the range.
pub proof fn lemma_le_top_bit(s: Seq<u8>)
    requires
        s.len() > 0,
    ensures
        (s.last() >= 0x80) == (le_unsigned(s) >= 128 * pow256((s.len() - 1) as nat)),
        pow256(s.len()) == 256 * pow256((s.len() - 1) as nat),
{
    let u = le_unsigned(s);
    let n = s.len();
    lemma_le_unsigned_bound(s);
    lemma_le_decode_roundtrip(s);
    lemma_le_encode_last(u, n);
    lemma_pow256_positive((n - 1) as nat);
    let q = pow256((n - 1) as nat);
    assert(pow256(n) == 256 * q);
    assert(s.last() as nat == u / q);
    assert((u / q >= 128) == (u >= 128 * q)) by (nonlinear_arith)
        requires
            q >= 1,
    ;
}

/// Signed encode/decode round trip.
pub proof fn lemma_le_signed_roundtrip(v: int, n: nat)
    requires
        fits_signed(v, n),
    ensures
        le_signed(le_encode_signed(v, n)) == v,
        le_encode_signed(v, n).len() == n,
{
    let p = pow256(n);
    let q = pow256((n - 1) as nat);
    assert(p == 256 * q);
    lemma_pow256_positive((n - 1) as nat);
    let u = twos(v, n);
    assert(u < p);
    lemma_le_roundtrip(u, n);
    lemma_le_encode_last(u, n);
    let s = le_encode(u, n);
    assert(s.last() as nat == u / q);
    if v < 0 {
        assert(u >= 128 * q);
        assert(u / q >= 128) by (nonlinear_arith)
            requires
                u >= 128 * q,
                q >= 1,
        ;
    } else {
        assert(u < 128 * q);
        assert(u / q < 128) by (nonlinear_arith)
            requires
                u < 128 * q,
                q >= 1,
        ;
    }
}

/// Writes the `n` low-order little-endian bytes of `u`.
pub fn push_le_bytes(out: &mut Vec<u8>, u: u128, n: usize)
    requires
        n <= 16,
    ensures
        final(out)@ == old(out)@ + le_encode(u as nat, n as nat),
{
    let ghost start = old(out)@;
    let mut cur = u;
    let mut i: usize = 0;
    proof {
        assert(le_encode(u as nat, 0) =~= Seq::<u8>::empty());
        assert(start + le_encode(u as nat, 0) =~= start);
        assert(pow256(0) == 1);
        assert(u as nat / 1 == u as nat);
    }
    while i < n
        invariant
            i <= n,
            out@ == start + le_encode(u as nat, i as nat),
            cur as nat == u as nat / pow256(i as nat),
        decreases n - i,
    {
        proof {
            lemma_le_encode_split(u as nat, i as nat, 1);
            lemma_pow256_positive(i as nat);
            vstd::arithmetic::div_mod::lemma_div_denominator(u as int, pow256(i as nat) as int, 256);
            lemma_pow256_add(i as nat, 1);
            lemma_pow256_values();
            assert(pow256(i as nat) * 256 == 256 * pow256(i as nat)) by (nonlinear_arith);
            assert(le_encode(cur as nat / 256, 0) =~= Seq::<u8>::empty());
            assert(le_encode(cur as nat, 1) =~= seq![(cur % 256) as u8]);
        }
        out.push((cur % 256) as u8);
        cur = cur / 256;
        i = i + 1;
        proof {
            assert(out@ =~= start + le_encode(u as nat, i as nat));
        }
    }
}

/// Reads `n` little-endian bytes of `s` starting at `start` as an unsigned value.
pub fn read_le_unsigned(s: &[u8], start: usize, n: usize) -> (r: u128)
    requires
        n <= 16,
        start + n <= s@.len(),
    ensures
        r as nat == le_unsigned(s@.subrange(start as int, start + n)),
{
    let mut acc: u128 = 0;
    let mut j: usize = n;
    let len = s.len();
    proof {
        lemma_pow256_values();
        assert(s@.subrange(start + n, start + n) =~= Seq::<u8>::empty());
    }
    while j > 0
        invariant
            j <= n <= 16,
            start + n <= s@.len(),
            len == s@.len(),
            acc as nat == le_unsigned(s@.subrange(start + j, start + n)),
            (acc as nat) < pow256((n - j) as nat),
            pow256(16) == 0x1_0000_0000_0000_0000_0000_0000_0000_0000int,
        decreases j,
    {
        let pos = start + (j - 1);
        let b = s[pos];
        let ghost tail = s@.subrange(start + j, start + n);
        proof {
            assert(s@.subrange(start + j - 1, start + n) =~= seq![b] + tail);
            lemma_le_unsigned_cons(b, tail);
            let k = (n - j) as nat;
            assert(pow256(k + 1) == 256 * pow256(k));
            lemma_pow256_add(k + 1, (16 - (k + 1)) as nat);
            lemma_pow256_positive((16 - (k + 1)) as nat);
            assert(pow256(k + 1) <= pow256(16)) by (nonlinear_arith)
                requires
                    pow256(16) == pow256(k + 1) * pow256((16 - (k + 1)) as nat),
                    pow256((16 - (k + 1)) as nat) >= 1,
            ;
            assert(b as nat + 256 * (acc as nat) < 256 * pow256(k)) by (nonlinear_arith)
                requires
                    acc < pow256(k),
                    b < 256,
            ;
        }
        acc = (b as u128) + 256 * acc;
        j = j - 1;
    }
    acc
}

/// Reads `n` little-endian bytes of `s` starting at `start` as a two's-complement value.
pub fn read_le_signed(s: &[u8], start: usize, n: usize) -> (r: i128)
    requires
        1 <= n <= 16,
        start + n <= s@.len(),
    ensures
        r as int == le_signed(s@.subrange(start as int, start + n)),
{
    let u = read_le_unsigned(s, start, n);
    let len = s.len();
    let ghost sub = s@.subrange(start as int, start + n);
    let top = s[start + (n - 1)];
    proof {
        lemma_pow256_values();
        lemma_le_unsigned_bound(sub);
        assert(sub.len() == n);
        assert(sub.last() == top);
        lemma_le_top_bit(sub);
    }
    if n < 16 {
        let p = pow256_exec(n);
        proof {
            lemma_pow256_add(n as nat, (16 - n) as nat);
            assert(pow256(n as nat) <= 0x1_00_0000_0000_0000_0000_0000_0000_0000int) by {
                lemma_pow256_add(n as nat, (15 - n) as nat);
                lemma_pow256_positive((15 - n) as nat);
                assert(pow256(n as nat) <= pow256(n as nat) * pow256((15 - n) as nat))
                    by (nonlinear_arith)
                    requires
                        pow256((15 - n) as nat) >= 1,
                ;
            }
        }
        if top >= 0x80 {
            (u as i128) - (p as i128)
        } else {
            u as i128
        }
    } else {
        let half: u128 = 0x8000_0000_0000_0000_0000_0000_0000_0000;
        proof {
            assert(128 * pow256(15) == half as int);
        }
        if top >= 0x80 {
            let low = u - half;
            assert(low < half);
            let low_signed = low as i128;
            assert(low_signed as int == low as int);
            low_signed - 0x7fff_ffff_ffff_ffff_ffff_ffff_ffff_ffff - 1
        } else {
            u as i128
        }
    }
}

/// 256 to the power `n`, for `n < 16`.
pub fn pow256_exec(n: usize) -> (r: u128)
    requires
        n < 16,
    ensures
        r as nat == pow256(n as nat),
{
    let mut r: u128 = 1;
    let mut i: usize = 0;
    while i < n
        invariant
            i <= n < 16,
            r as nat == pow256(i as nat),
        decreases n - i,
    {
        proof {
            lemma_pow256_add(i as nat + 1, (15 - (i + 1)) as nat);
            lemma_pow256_positive((15 - (i + 1)) as nat);
            lemma_pow256_values();
            assert(pow256(i as nat + 1) <= pow256(15)) by (nonlinear_arith)
                requires
                    pow256(15) == pow256(i as nat + 1) * pow256((15 - (i + 1)) as nat),
                    pow256((15 - (i + 1)) as nat) >= 1,
            ;
            lemma_pow256_add(i as nat, 1);
        }
        r = r * 256;
        i = i + 1;
    }
    r
}

} // verus!
