//! Little-endian integers in a byte sequence: the model that the codec's
//! contracts are written over, and the two routines that read and write them.

use vstd::prelude::*;

verus! {

/// 256 to the power `n`: the number of values that `n` bytes can spell.
pub open spec fn pow256(n: nat) -> nat
    decreases n,
{
    if n == 0 {
        1
    } else {
        256 * pow256((n - 1) as nat)
    }
}

/// The `n` low-order bytes of `v`, least significant first. A negative `v`
/// is taken in two's complement: the remainder is never negative and the
/// quotient rounds down, so the sign carries into every higher byte.
pub open spec fn le_bytes(v: int, n: nat) -> Seq<u8>
    decreases n,
{
    if n == 0 {
        Seq::empty()
    } else {
        seq![(v % 256) as u8] + le_bytes(v / 256, (n - 1) as nat)
    }
}

/// The unsigned number that `s` spells, least significant byte first.
pub open spec fn le_value(s: Seq<u8>) -> nat
    decreases s.len(),
{
    if s.len() == 0 {
        0
    } else {
        s[0] as nat + 256 * le_value(s.skip(1))
    }
}

/// The signed number that `s` spells in two's complement, least significant
/// byte first.
pub open spec fn le_signed_value(s: Seq<u8>) -> int {
    if 2 * le_value(s) >= pow256(s.len()) {
        le_value(s) - pow256(s.len())
    } else {
        le_value(s) as int
    }
}

/// The powers of 256 up to the eighth, as numbers.
pub proof fn lemma_pow256_values()
    ensures
        pow256(0) == 1,
        pow256(1) == 0x100,
        pow256(2) == 0x1_0000,
        pow256(3) == 0x100_0000,
        pow256(4) == 0x1_0000_0000,
        pow256(5) == 0x100_0000_0000,
        pow256(6) == 0x1_0000_0000_0000,
        pow256(7) == 0x100_0000_0000_0000,
        pow256(8) == 0x1_0000_0000_0000_0000,
{
    reveal_with_fuel(pow256, 9);
}

/// A power of 256 is positive.
pub proof fn lemma_pow256_positive(n: nat)
    ensures
        pow256(n) > 0,
    decreases n,
{
    if n > 0 {
        lemma_pow256_positive((n - 1) as nat);
    }
}

/// A larger exponent gives a power of 256 that is no smaller.
pub proof fn lemma_pow256_monotonic(a: nat, b: nat)
    requires
        a <= b,
    ensures
        pow256(a) <= pow256(b),
    decreases b,
{
    if a < b {
        lemma_pow256_monotonic(a, (b - 1) as nat);
    }
}

/// The power to a sum of exponents is the product of the powers.
pub proof fn lemma_pow256_sum(a: nat, b: nat)
    ensures
        pow256(a + b) == pow256(a) * pow256(b),
    decreases a,
{
    if a == 0 {
        assert(pow256(a + b) == 1 * pow256(b));
    } else {
        let m = (a - 1) as nat;
        lemma_pow256_sum(m, b);
        assert((a + b - 1) as nat == m + b);
        assert(pow256(a + b) == 256 * pow256(m + b));
        assert(256 * (pow256(m) * pow256(b)) == (256 * pow256(m)) * pow256(b))
            by (nonlinear_arith);
    }
}

/// `le_bytes(v, n)` has `n` bytes.
pub proof fn lemma_le_bytes_len(v: int, n: nat)
    ensures
        le_bytes(v, n).len() == n,
    decreases n,
{
    if n > 0 {
        lemma_le_bytes_len(v / 256, (n - 1) as nat);
    }
}

/// What `n` bytes spell is below 256 to the `n`.
pub proof fn lemma_le_value_bound(s: Seq<u8>)
    ensures
        le_value(s) < pow256(s.len()),
    decreases s.len(),
{
    if s.len() > 0 {
        lemma_le_value_bound(s.skip(1));
    }
}

/// Reading back the `n` low bytes of `v` gives `v` modulo 256 to the `n`.
pub proof fn lemma_le_value_of_bytes(v: int, n: nat)
    ensures
        le_value(le_bytes(v, n)) == v % (pow256(n) as int),
    decreases n,
{
    if n > 0 {
        let m = (n - 1) as nat;
        let p = pow256(m) as int;
        let q = v / 256;
        lemma_le_bytes_len(q, m);
        lemma_le_value_of_bytes(q, m);
        lemma_pow256_positive(m);
        assert(le_bytes(v, n).skip(1) =~= le_bytes(q, m));
        // With v == 256 * q + v % 256 and q == p * (q / p) + q % p, the
        // remainder of v by 256 * p is 256 * (q % p) + v % 256.
        let r = 256 * (q % p) + v % 256;
        assert(q == p * (q / p) + q % p) by {
            vstd::arithmetic::div_mod::lemma_fundamental_div_mod(q, p);
        }
        assert(v == (q / p) * (256 * p) + r) by (nonlinear_arith)
            requires
                v == 256 * q + v % 256,
                q == p * (q / p) + q % p,
                r == 256 * (q % p) + v % 256,
        ;
        vstd::arithmetic::div_mod::lemma_fundamental_div_mod_converse(v, 256 * p, q / p, r);
    }
}

/// An unsigned number below 256 to the `n` is read back from its `n` bytes.
pub proof fn lemma_le_round_trip(v: int, n: nat)
    requires
        0 <= v < pow256(n),
    ensures
        le_value(le_bytes(v, n)) == v,
{
    lemma_le_value_of_bytes(v, n);
    vstd::arithmetic::div_mod::lemma_small_mod(v as nat, pow256(n));
}

/// A signed number that `n` bytes can hold is read back from its `n` bytes.
pub proof fn lemma_le_signed_round_trip(v: int, n: nat)
    requires
        n > 0,
        -(pow256(n) as int) <= 2 * v < pow256(n),
    ensures
        le_signed_value(le_bytes(v, n)) == v,
{
    let p = pow256(n) as int;
    lemma_le_value_of_bytes(v, n);
    lemma_le_bytes_len(v, n);
    if v >= 0 {
        vstd::arithmetic::div_mod::lemma_small_mod(v as nat, pow256(n));
    } else {
        vstd::arithmetic::div_mod::lemma_fundamental_div_mod_converse(v, p, -1, v + p);
    }
}

/// Two numbers that differ by a multiple of 256 to the `n` have the same `n`
/// low bytes.
pub proof fn lemma_le_bytes_congruent(a: int, b: int, k: int, n: nat)
    requires
        a == b + k * pow256(n),
    ensures
        le_bytes(a, n) == le_bytes(b, n),
    decreases n,
{
    if n > 0 {
        let m = (n - 1) as nat;
        let j = k * pow256(m);
        assert(a == b + j * 256) by (nonlinear_arith)
            requires
                a == b + k * (256 * pow256(m)),
                j == k * pow256(m),
        ;
        vstd::arithmetic::div_mod::lemma_fundamental_div_mod(b, 256);
        vstd::arithmetic::div_mod::lemma_fundamental_div_mod_converse(
            a,
            256,
            b / 256 + j,
            b % 256,
        );
        lemma_le_bytes_congruent(a / 256, b / 256, k, m);
    }
}

/// Reads the `n` bytes of `buf` from `at` on as a little-endian number.
pub(crate) fn read_le(buf: &[u8], at: usize, n: usize) -> (r: u64)
    requires
        n <= 8,
        at + n <= buf.len(),
    ensures
        r == le_value(buf@.subrange(at as int, at + n)),
{
    let mut acc: u64 = 0;
    let mut i: usize = n;
    while i > 0
        invariant
            i <= n <= 8,
            at + n <= buf.len(),
            acc == le_value(buf@.subrange(at + i, at + n)),
        decreases i,
    {
        i = i - 1;
        proof {
            let higher = buf@.subrange(at + i + 1, at + n);
            lemma_le_value_bound(higher);
            lemma_pow256_monotonic(higher.len(), 7);
            lemma_pow256_values();
            assert(buf@.subrange(at + i, at + n).skip(1) =~= higher);
        }
        acc = acc * 256 + buf[at + i] as u64;
    }
    acc
}

/// Writes the `n` low bytes of `v` into `buf` from `at` on, least
/// significant first, and leaves the rest of `buf` as it was.
pub(crate) fn write_le(buf: &mut [u8], at: usize, v: u64, n: usize)
    requires
        n <= 8,
        at + n <= old(buf).len(),
    ensures
        final(buf)@ == old(buf)@.subrange(0, at as int) + le_bytes(v as int, n as nat) + old(
            buf,
        )@.skip(at + n),
{
    let ghost before = buf@;
    let mut rest: u64 = v;
    let mut i: usize = 0;
    while i < n
        invariant
            i <= n <= 8,
            at + n <= buf.len(),
            buf.len() == before.len(),
            forall|j: int| 0 <= j < at ==> buf@[j] == before[j],
            forall|j: int| at + i <= j < before.len() ==> buf@[j] == before[j],
            buf@.subrange(at as int, at + i) + le_bytes(rest as int, (n - i) as nat) == le_bytes(
                v as int,
                n as nat,
            ),
        decreases n - i,
    {
        let ghost written = buf@.subrange(at as int, at + i);
        buf[at + i] = (rest % 256) as u8;
        proof {
            lemma_le_bytes_len(rest as int / 256, (n - i - 1) as nat);
            assert(buf@.subrange(at as int, at + i + 1) + le_bytes(
                rest as int / 256,
                (n - i - 1) as nat,
            ) =~= written + le_bytes(rest as int, (n - i) as nat));
        }
        rest = rest / 256;
        i = i + 1;
    }
    proof {
        lemma_le_bytes_len(v as int, n as nat);
        assert(buf@.subrange(at as int, at + n) =~= le_bytes(v as int, n as nat));
        assert(buf@ =~= before.subrange(0, at as int) + le_bytes(v as int, n as nat)
            + before.skip(at + n));
    }
}

} // verus!
