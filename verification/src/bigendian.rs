//! Big-endian integers on the wire, as arithmetic on base-256 digits.

use vstd::prelude::*;

verus! {

/// 256 to the power `n`.
pub open spec fn pow256(n: nat) -> nat
    decreases n,
{
    if n == 0 {
        1
    } else {
        256 * pow256((n - 1) as nat)
    }
}

/// The number whose base-256 digits, most significant first, are `digits`.
pub open spec fn be_value(digits: Seq<u8>) -> nat
    decreases digits.len(),
{
    if digits.len() == 0 {
        0
    } else {
        be_value(digits.drop_last()) * 256 + digits.last() as nat
    }
}

/// The `n` least significant base-256 digits of `x`, most significant first.
pub open spec fn be_bytes(x: nat, n: nat) -> Seq<u8>
    decreases n,
{
    if n == 0 {
        Seq::empty()
    } else {
        be_bytes(x / 256, (n - 1) as nat).push((x % 256) as u8)
    }
}

/// `be_bytes` yields exactly as many digits as it is asked for.
pub proof fn lemma_be_bytes_len(x: nat, n: nat)
    ensures
        be_bytes(x, n).len() == n,
    decreases n,
{
    if n > 0 {
        lemma_be_bytes_len(x / 256, (n - 1) as nat);
    }
}

/// A number of `n` digits lies below 256 to the `n`.
pub proof fn lemma_be_value_bound(digits: Seq<u8>)
    ensures
        be_value(digits) < pow256(digits.len()),
    decreases digits.len(),
{
    if digits.len() > 0 {
        lemma_be_value_bound(digits.drop_last());
        let hi = be_value(digits.drop_last());
        let top = pow256((digits.len() - 1) as nat);
        assert(hi + 1 <= top);
        assert((hi + 1) * 256 <= top * 256) by (nonlinear_arith)
            requires
                hi + 1 <= top,
        ;
    }
}

/// Reading back the digits written for `x` gives `x`, as far as `n` digits
/// can hold it.
pub proof fn lemma_value_of_bytes(x: nat, n: nat)
    ensures
        be_value(be_bytes(x, n)) == x % pow256(n),
    decreases n,
{
    if n > 0 {
        let rest = (n - 1) as nat;
        lemma_value_of_bytes(x / 256, rest);
        assert(be_bytes(x, n).drop_last() =~= be_bytes(x / 256, rest));
        let p = pow256(rest);
        lemma_pow256_positive(rest);
        vstd::arithmetic::div_mod::lemma_mod_breakdown(x as int, 256, p as int);
        assert(((x / 256) % p) * 256 == 256 * ((x as int / 256) % (p as int)));
    }
}

/// 256 to any power is positive.
pub proof fn lemma_pow256_positive(n: nat)
    ensures
        pow256(n) > 0,
    decreases n,
{
    if n > 0 {
        lemma_pow256_positive((n - 1) as nat);
    }
}

/// Writing the value of some digits with as many digits gives them back.
pub proof fn lemma_bytes_of_value(digits: Seq<u8>)
    ensures
        be_bytes(be_value(digits), digits.len()) == digits,
    decreases digits.len(),
{
    if digits.len() > 0 {
        let front = digits.drop_last();
        let low = digits.last() as nat;
        lemma_bytes_of_value(front);
        let v = be_value(front);
        assert((v * 256 + low) / 256 == v && (v * 256 + low) % 256 == low) by (nonlinear_arith)
            requires
                low < 256,
        ;
        assert(be_bytes(be_value(digits), digits.len()) =~= digits);
    } else {
        assert(be_bytes(be_value(digits), digits.len()) =~= digits);
    }
}

/// Appends the `n` least significant bytes of `x` to `out`, most significant
/// first.
pub fn push_be(out: &mut Vec<u8>, x: u64, n: usize)
    ensures
        final(out)@ == old(out)@ + be_bytes(x as nat, n as nat),
    decreases n,
{
    if n > 0 {
        push_be(out, x / 256, n - 1);
        out.push((x % 256) as u8);
        assert(out@ =~= old(out)@ + be_bytes(x as nat, n as nat));
    } else {
        assert(out@ =~= old(out)@ + be_bytes(x as nat, n as nat));
    }
}

/// Reads the `n` bytes of `bytes` that start at `start` as one big-endian
/// number.
pub fn read_be(bytes: &[u8], start: usize, n: usize) -> (x: u64)
    requires
        n <= 8,
        start + n <= bytes.len(),
    ensures
        x == be_value(bytes@.subrange(start as int, start + n)),
    decreases n,
{
    if n == 0 {
        0
    } else {
        let hi: u64 = read_be(bytes, start, n - 1);
        let low: u8 = bytes[start + n - 1];
        proof {
            let span = bytes@.subrange(start as int, start + n);
            assert(span.drop_last() =~= bytes@.subrange(start as int, start + n - 1));
            lemma_be_value_bound(span);
            reveal_with_fuel(pow256, 9);
            assert(pow256(8) == 0x1_0000_0000_0000_0000);
            lemma_pow256_monotone(n as nat, 8);
        }
        hi * 256 + low as u64
    }
}

/// 256 to the `n` grows with `n`.
pub proof fn lemma_pow256_monotone(n: nat, m: nat)
    requires
        n <= m,
    ensures
        pow256(n) <= pow256(m),
    decreases m,
{
    if n < m {
        lemma_pow256_monotone(n, (m - 1) as nat);
        lemma_pow256_positive((m - 1) as nat);
    }
}

} // verus!
