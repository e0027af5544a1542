//! Padding an image with zero bytes up to the next power-of-two length.
use vstd::prelude::*;

verus! {

/// `2^k`.
pub open spec fn pow2(k: nat) -> nat
    decreases k,
{
    if k == 0 {
        1
    } else {
        2 * pow2((k - 1) as nat)
    }
}

pub open spec fn is_power_of_two(n: nat) -> bool {
    exists|k: nat| pow2(k) == n
}

/// Doubles `p` until it reaches at least `n`.
pub open spec fn double_until(p: nat, n: nat) -> nat
    decreases (if p < n { n - p } else { 0 }),
    when p >= 1
{
    if p >= n {
        p
    } else {
        double_until(2 * p, n)
    }
}

/// The length an image of `n` bytes is padded to: the smallest power of two
/// that is at least `n`.
pub open spec fn pad_len(n: nat) -> nat {
    double_until(1, n)
}

/// `b` extended with zero bytes to `pad_len(b.len())`; unchanged when its
/// length is already a power of two.
pub open spec fn padded(b: Seq<u8>) -> Seq<u8> {
    b + Seq::new((pad_len(b.len()) - b.len()) as nat, |i: int| 0u8)
}

proof fn lemma_pow2_monotone(a: nat, b: nat)
    requires
        a <= b,
    ensures
        1 <= pow2(a) <= pow2(b),
    decreases b,
{
    if b > 0 {
        if a == b {
            lemma_pow2_monotone((a - 1) as nat, (b - 1) as nat);
        } else {
            lemma_pow2_monotone(a, (b - 1) as nat);
        }
    }
}

/// Of two powers of two, the larger is at least twice the smaller.
proof fn lemma_pow2_gap(p: nat, q: nat)
    requires
        is_power_of_two(p),
        is_power_of_two(q),
        q > p,
    ensures
        q >= 2 * p,
        p >= 1,
{
    let a = choose|k: nat| pow2(k) == p;
    let b = choose|k: nat| pow2(k) == q;
    if b <= a {
        lemma_pow2_monotone(b, a);
    } else {
        lemma_pow2_monotone(a + 1, b);
        assert(pow2(a + 1) == 2 * pow2(a));
    }
}

proof fn lemma_double_until(p: nat, n: nat)
    requires
        p >= 1,
        is_power_of_two(p),
        forall|q: nat| is_power_of_two(q) && q >= n ==> q >= p,
    ensures
        is_power_of_two(double_until(p, n)),
        double_until(p, n) >= n,
        double_until(p, n) >= p,
        forall|q: nat| is_power_of_two(q) && q >= n ==> q >= double_until(p, n),
    decreases (if p < n { n - p } else { 0 }),
{
    if p < n {
        let k = choose|k: nat| pow2(k) == p;
        assert(pow2(k + 1) == 2 * p);
        assert forall|q: nat| is_power_of_two(q) && q >= n implies q >= 2 * p by {
            lemma_pow2_gap(p, q);
        }
        lemma_double_until(2 * p, n);
    }
}

/// `pad_len(n)` is a power of two, at least `n`, and no power of two that is
/// at least `n` is smaller.
pub proof fn lemma_pad_len_is_least(n: nat)
    ensures
        is_power_of_two(pad_len(n)),
        pad_len(n) >= n,
        pad_len(n) >= 1,
        forall|q: nat| is_power_of_two(q) && q >= n ==> q >= pad_len(n),
{
    assert(pow2(0) == 1);
    assert forall|q: nat| is_power_of_two(q) && q >= n implies q >= 1 by {
        let k = choose|k: nat| pow2(k) == q;
        lemma_pow2_monotone(0, k);
    }
    lemma_double_until(1, n);
}

/// A power-of-two length is its own padded length.
pub proof fn lemma_pad_len_fixed(n: nat)
    requires
        is_power_of_two(n),
    ensures
        pad_len(n) == n,
{
    lemma_pad_len_is_least(n);
}

/// Padding leaves a buffer whose length is a power of two unchanged, and
/// padding twice gives the same bytes as padding once.
pub proof fn lemma_padding_idempotent(b: Seq<u8>)
    ensures
        is_power_of_two(b.len()) ==> padded(b) == b,
        padded(padded(b)) == padded(b),
{
    lemma_pad_len_is_least(b.len());
    if is_power_of_two(b.len()) {
        lemma_pad_len_fixed(b.len());
        assert(padded(b) =~= b);
    }
    let once = padded(b);
    assert(once.len() == pad_len(b.len()));
    lemma_pad_len_fixed(once.len());
    assert(padded(once) =~= once);
}

/// For a length `L` that is not a power of two, padding yields the smallest
/// power of two strictly greater than `L`, keeps the original bytes, and
/// appends only zeros.
pub proof fn lemma_padding_correct(b: Seq<u8>)
    requires
        !is_power_of_two(b.len()),
    ensures
        padded(b).len() > b.len(),
        is_power_of_two(padded(b).len()),
        forall|q: nat| is_power_of_two(q) && q > b.len() ==> q >= padded(b).len(),
        padded(b).subrange(0, b.len() as int) == b,
        forall|i: int| b.len() <= i < padded(b).len() ==> padded(b)[i] == 0,
{
    lemma_pad_len_is_least(b.len());
    assert(padded(b).subrange(0, b.len() as int) =~= b);
}

/// The padded length of an `n`-byte image.
pub fn padded_len(n: usize) -> (r: usize)
    requires
        pad_len(n as nat) <= usize::MAX,
    ensures
        r == pad_len(n as nat),
{
    proof {
        lemma_pad_len_is_least(n as nat);
    }
    let mut p: usize = 1;
    while p < n
        invariant
            1 <= p,
            double_until(p as nat, n as nat) == pad_len(n as nat),
            p <= pad_len(n as nat) <= usize::MAX,
        decreases pad_len(n as nat) - p,
    {
        proof {
            lemma_double_until_at_least(2 * p as nat, n as nat);
        }
        p = p * 2;
        proof {
            lemma_double_until_at_least(p as nat, n as nat);
        }
    }
    p
}

proof fn lemma_double_until_at_least(p: nat, n: nat)
    requires
        p >= 1,
    ensures
        double_until(p, n) >= p,
    decreases (if p < n { n - p } else { 0 }),
{
    if p < n {
        lemma_double_until_at_least(2 * p, n);
    }
}

/// Appends zero bytes until the length of `buf` is a power of two; a buffer
/// whose length already is one is left as it is.
pub fn pad_to_power_of_two(buf: &mut Vec<u8>)
    requires
        pad_len(old(buf)@.len()) <= usize::MAX,
    ensures
        final(buf)@ == padded(old(buf)@),
{
    let target = padded_len(buf.len());
    proof {
        lemma_pad_len_is_least(old(buf)@.len());
    }
    while buf.len() < target
        invariant
            target == pad_len(old(buf)@.len()),
            old(buf)@.len() <= buf@.len() <= target,
            buf@.subrange(0, old(buf)@.len() as int) == old(buf)@,
            forall|i: int| old(buf)@.len() <= i < buf@.len() ==> buf@[i] == 0,
        decreases target - buf@.len(),
    {
        buf.push(0);
        assert(buf@.subrange(0, old(buf)@.len() as int) =~= old(buf)@);
    }
    assert(buf@ =~= padded(old(buf)@));
}

} // verus!
