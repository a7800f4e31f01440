//! Arithmetic of little-endian bit strings: the value of a sequence of bits
//! read least-significant bit first, and how single bits are recovered from
//! that value by division.

use vstd::prelude::*;

verus! {

use vstd::arithmetic::power2::pow2;
use vstd::arithmetic::power2::lemma_pow2_unfold;
use vstd::arithmetic::power2::lemma_pow2_pos;
use vstd::arithmetic::power2::lemma2_to64;
use vstd::arithmetic::div_mod::lemma_div_denominator;
use vstd::arithmetic::div_mod::lemma_fundamental_div_mod;
use vstd::arithmetic::div_mod::lemma_fundamental_div_mod_converse;
use vstd::arithmetic::div_mod::lemma_mod_multiples_vanish;

/// Every entry of `bs` is a single bit, 0 or 1.
pub open spec fn all_bits(bs: Seq<int>) -> bool {
    forall|i: int| 0 <= i < bs.len() ==> 0 <= #[trigger] bs[i] <= 1
}

/// The value of a bit string read least-significant bit first.
pub open spec fn bin_value(bs: Seq<int>) -> int
    decreases bs.len(),
{
    if bs.len() == 0 {
        0
    } else {
        bs[0] + 2 * bin_value(bs.drop_first())
    }
}

/// The bits of `x`, least-significant first: entry `r` is bit `r` of `x`.
pub open spec fn bit_seq(x: int, n: nat) -> Seq<int> {
    Seq::new(n, |r: int| (x / pow2(r as nat) as int) % 2)
}

proof fn lemma_all_bits_drop_first(bs: Seq<int>)
    requires
        all_bits(bs),
        bs.len() >= 1,
    ensures
        all_bits(bs.drop_first()),
{
    assert forall|i: int| 0 <= i < bs.drop_first().len() implies 0 <= #[trigger] bs.drop_first()[i]
        <= 1 by {
        assert(bs.drop_first()[i] == bs[i + 1]);
    }
}

/// A string of n bits has a value in `[0, 2^n)`.
pub proof fn lemma_bin_value_bound(bs: Seq<int>)
    requires
        all_bits(bs),
    ensures
        0 <= bin_value(bs) < pow2(bs.len()),
    decreases bs.len(),
{
    if bs.len() == 0 {
        lemma2_to64();
    } else {
        lemma_all_bits_drop_first(bs);
        lemma_bin_value_bound(bs.drop_first());
        lemma_pow2_unfold(bs.len());
        assert(bs[0] <= 1);
    }
}

/// Bit `k` of the value of a bit string is the string's entry `k`.
pub proof fn lemma_bin_value_bit(bs: Seq<int>, k: int)
    requires
        all_bits(bs),
        0 <= k < bs.len(),
    ensures
        (bin_value(bs) / pow2(k as nat) as int) % 2 == bs[k],
    decreases k,
{
    let v = bin_value(bs);
    let rest = bin_value(bs.drop_first());
    lemma_all_bits_drop_first(bs);
    lemma_bin_value_bound(bs.drop_first());
    assert(v == bs[0] + 2 * rest);
    if k == 0 {
        lemma2_to64();
        assert(pow2(0) == 1);
        assert(v / 1int == v);
        lemma_mod_multiples_vanish(rest, bs[0], 2);
        assert((2 * rest + bs[0]) % 2 == bs[0] % 2);
        assert(bs[0] % 2 == bs[0]);
    } else {
        lemma_pow2_unfold(k as nat);
        lemma_pow2_pos((k - 1) as nat);
        lemma_bin_value_bound(bs);
        lemma_div_denominator(v, 2, pow2((k - 1) as nat) as int);
        assert((v / 2) / pow2((k - 1) as nat) as int == v / (2 * pow2((k - 1) as nat) as int));
        lemma_fundamental_div_mod_converse(v, 2, rest, bs[0]);
        assert(v / 2 == rest);
        lemma_bin_value_bit(bs.drop_first(), k - 1);
        assert(bs.drop_first()[k - 1] == bs[k]);
    }
}

/// The value of the bit string of `x` is `x` itself, for `x < 2^n`.
pub proof fn lemma_bin_value_reconstruct(x: int, n: nat)
    requires
        0 <= x < pow2(n),
    ensures
        bin_value(bit_seq(x, n)) == x,
    decreases n,
{
    let s = bit_seq(x, n);
    if n == 0 {
        lemma2_to64();
        assert(x == 0);
    } else {
        lemma2_to64();
        assert(pow2(0) == 1);
        assert(x / 1int == x);
        assert(s[0] == x % 2);
        lemma_fundamental_div_mod(x, 2);
        assert(x == 2 * (x / 2) + x % 2);
        lemma_pow2_unfold(n);
        assert(x / 2 < pow2((n - 1) as nat)) by {
            if x / 2 >= pow2((n - 1) as nat) {
                assert(x >= 2 * (x / 2));
                assert(2 * (x / 2) >= 2 * pow2((n - 1) as nat) as int);
            }
        }
        assert(x / 2 >= 0) by {
            if x / 2 < 0 {
                assert(x <= 2 * (x / 2) + 1);
            }
        }
        assert forall|r: int| 0 <= r < n - 1 implies s.drop_first()[r] == bit_seq(
            x / 2,
            (n - 1) as nat,
        )[r] by {
            assert(s.drop_first()[r] == s[r + 1]);
            assert(s[r + 1] == (x / pow2((r + 1) as nat) as int) % 2);
            lemma_pow2_unfold((r + 1) as nat);
            lemma_pow2_pos(r as nat);
            lemma_div_denominator(x, 2, pow2(r as nat) as int);
            assert((x / 2) / pow2(r as nat) as int == x / (2 * pow2(r as nat) as int));
        }
        assert(s.drop_first() =~= bit_seq(x / 2, (n - 1) as nat));
        lemma_bin_value_reconstruct(x / 2, (n - 1) as nat);
        assert(bin_value(s) == s[0] + 2 * bin_value(s.drop_first()));
    }
}

/// A bit string of zeros has value zero.
pub proof fn lemma_bin_value_zero(bs: Seq<int>)
    requires
        forall|i: int| 0 <= i < bs.len() ==> #[trigger] bs[i] == 0,
    ensures
        bin_value(bs) == 0,
    decreases bs.len(),
{
    if bs.len() > 0 {
        assert forall|i: int| 0 <= i < bs.drop_first().len() implies #[trigger] bs.drop_first()[i]
            == 0 by {
            assert(bs.drop_first()[i] == bs[i + 1]);
        }
        lemma_bin_value_zero(bs.drop_first());
    }
}

/// Appending a bit on the most-significant end adds its weighted value.
pub proof fn lemma_bin_value_push(bs: Seq<int>, b: int)
    ensures
        bin_value(bs.push(b)) == bin_value(bs) + pow2(bs.len()) * b,
    decreases bs.len(),
{
    if bs.len() == 0 {
        lemma2_to64();
        assert(bs.push(b)[0] == b);
        assert(bs.push(b).drop_first() =~= Seq::<int>::empty());
        assert(bin_value(Seq::<int>::empty()) == 0);
        assert(bin_value(bs.push(b)) == b + 2 * bin_value(bs.push(b).drop_first()));
    } else {
        assert(bs.push(b).drop_first() =~= bs.drop_first().push(b));
        lemma_bin_value_push(bs.drop_first(), b);
        lemma_pow2_unfold(bs.len());
        assert(bs.push(b)[0] == bs[0]);
        assert(bin_value(bs.push(b)) == bs[0] + 2 * bin_value(bs.drop_first().push(b)));
        vstd::arithmetic::mul::lemma_mul_is_associative(2, pow2((bs.len() - 1) as nat) as int, b);
    }
}

} // verus!
