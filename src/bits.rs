use vstd::arithmetic::div_mod::{
    lemma_div_denominator, lemma_mod_breakdown, lemma_multiply_divide_lt, lemma_small_mod,
};
use vstd::arithmetic::power2::{lemma2_to64, lemma_pow2_adds, lemma_pow2_pos, lemma_pow2_unfold, pow2};
use vstd::prelude::*;

verus! {

/// Bit `i` of `x`, counting from the least significant bit.
pub open spec fn bit_of(x: nat, i: nat) -> bool {
    (x / pow2(i)) % 2 == 1
}

/// The low `n` bits of `x`, least significant first.
pub open spec fn bits_of(x: nat, n: nat) -> Seq<bool> {
    Seq::new(n, |i: int| bit_of(x, i as nat))
}

/// The number whose bits, least significant first, are `s`.
pub open spec fn bits_value(s: Seq<bool>) -> nat
    decreases s.len(),
{
    if s.len() == 0 {
        0
    } else {
        (if s[0] { 1nat } else { 0nat }) + 2 * bits_value(s.drop_first())
    }
}

/// The bits of a word buffer as a stream: bit `k` is bit `k % 32` of word `k / 32`.
pub open spec fn word_bits(words: Seq<u32>) -> Seq<bool> {
    Seq::new(32 * words.len(), |k: int| bit_of(words[k / 32] as nat, (k % 32) as nat))
}

/// The bits of a byte buffer as a stream: bit `k` is bit `k % 8` of byte `k / 8`.
pub open spec fn byte_bits(bytes: Seq<u8>) -> Seq<bool> {
    Seq::new(8 * bytes.len(), |k: int| bit_of(bytes[k / 8] as nat, (k % 8) as nat))
}

/// The unsigned field of `n` bits that starts at bit `off` of `s`.
pub open spec fn field(s: Seq<bool>, off: int, n: nat) -> nat {
    bits_value(s.subrange(off, off + n))
}

/// `n` zero bits.
pub open spec fn zero_bits(n: nat) -> Seq<bool> {
    Seq::new(n, |i: int| false)
}

pub proof fn lemma_bit_of_half(x: nat, i: nat)
    ensures
        bit_of(x, i + 1) == bit_of(x / 2, i),
{
    lemma_pow2_pos(i);
    lemma_pow2_unfold(i + 1);
    lemma_div_denominator(x as int, 2, pow2(i) as int);
}

pub proof fn lemma_bit_of_shifted(x: nat, b: nat, i: nat)
    ensures
        bit_of(x, b + i) == bit_of(x / pow2(b), i),
{
    lemma_pow2_pos(b);
    lemma_pow2_pos(i);
    lemma_pow2_adds(b, i);
    lemma_div_denominator(x as int, pow2(b) as int, pow2(i) as int);
}

/// Reading back the low `n` bits of `x` gives `x` modulo `2^n`.
pub proof fn lemma_bits_value_of(x: nat, n: nat)
    ensures
        bits_value(bits_of(x, n)) == x % pow2(n),
    decreases n,
{
    lemma_pow2_pos(n);
    if n == 0 {
        lemma2_to64();
    } else {
        let m = (n - 1) as nat;
        assert(bits_of(x, n).drop_first() =~= bits_of(x / 2, m)) by {
            assert forall|i: int| 0 <= i < m implies bits_of(x, n).drop_first()[i] == bits_of(
                x / 2,
                m,
            )[i] by {
                lemma_bit_of_half(x, i as nat);
            }
        }
        lemma_bits_value_of(x / 2, m);
        lemma2_to64();
        lemma_pow2_unfold(n);
        lemma_pow2_pos(m);
        lemma_mod_breakdown(x as int, 2, pow2(m) as int);
    }
}

pub proof fn lemma_bits_value_bound(s: Seq<bool>)
    ensures
        bits_value(s) < pow2(s.len()),
    decreases s.len(),
{
    if s.len() == 0 {
        lemma2_to64();
    } else {
        lemma_bits_value_bound(s.drop_first());
        lemma_pow2_unfold(s.len());
    }
}

/// A number below `2^n` is read back exactly from its low `n` bits.
pub proof fn lemma_bits_round_trip(x: nat, n: nat)
    requires
        x < pow2(n),
    ensures
        bits_value(bits_of(x, n)) == x,
{
    lemma_bits_value_of(x, n);
    lemma_small_mod(x, pow2(n));
}

/// The value of two concatenated bit strings.
pub proof fn lemma_bits_value_append(a: Seq<bool>, b: Seq<bool>)
    ensures
        bits_value(a + b) == bits_value(a) + pow2(a.len()) * bits_value(b),
    decreases a.len(),
{
    if a.len() == 0 {
        assert(a + b =~= b);
        lemma2_to64();
    } else {
        assert((a + b).drop_first() =~= a.drop_first() + b);
        lemma_bits_value_append(a.drop_first(), b);
        lemma_pow2_unfold(a.len());
        let p = pow2((a.len() - 1) as nat);
        let vb = bits_value(b);
        assert(2 * (bits_value(a.drop_first()) + p * vb) == 2 * bits_value(a.drop_first()) + (2
            * p) * vb) by (nonlinear_arith);
    }
}

/// Bit `t` of the value of `s` is `s[t]`.
pub proof fn lemma_bit_of_value(s: Seq<bool>, t: nat)
    requires
        t < s.len(),
    ensures
        bit_of(bits_value(s), t) == s[t as int],
    decreases t,
{
    if t == 0 {
        lemma2_to64();
    } else {
        lemma_bit_of_half(bits_value(s), (t - 1) as nat);
        lemma_bit_of_value(s.drop_first(), (t - 1) as nat);
    }
}

/// A field that lies inside one word is that word shifted and masked.
pub proof fn lemma_field_in_word(words: Seq<u32>, idx: int, b: nat, n: nat)
    requires
        0 <= idx < words.len(),
        b + n <= 32,
    ensures
        word_bits(words).subrange(32 * idx + b, 32 * idx + b + n) == bits_of(
            words[idx] as nat / pow2(b),
            n,
        ),
        field(word_bits(words), 32 * idx + b, n) == (words[idx] as nat / pow2(b)) % pow2(n),
{
    let s = word_bits(words).subrange(32 * idx + b, 32 * idx + b + n);
    assert forall|i: int| 0 <= i < n implies s[i] == bits_of(words[idx] as nat / pow2(b), n)[i] by {
        let k = 32 * idx + b + i;
        assert(k / 32 == idx && k % 32 == b + i);
        lemma_bit_of_shifted(words[idx] as nat, b, i as nat);
    }
    assert(s =~= bits_of(words[idx] as nat / pow2(b), n));
    lemma_bits_value_of(words[idx] as nat / pow2(b), n);
}

/// A field that crosses from one word into the next.
pub proof fn lemma_field_across_words(words: Seq<u32>, idx: int, b: nat, n: nat)
    requires
        0 <= idx,
        idx + 1 < words.len(),
        b < 32,
        32 < b + n,
        n <= 32,
    ensures
        field(word_bits(words), 32 * idx + b, n) == words[idx] as nat / pow2(b) + pow2(
            (32 - b) as nat,
        ) * (words[idx + 1] as nat % pow2((b + n - 32) as nat)),
{
    let k = (32 - b) as nat;
    let m = (b + n - 32) as nat;
    let off = 32 * idx + b;
    let s = word_bits(words);
    lemma_field_in_word(words, idx, b, k);
    lemma_field_in_word(words, idx + 1, 0, m);
    assert(s.subrange(off, off + n) =~= s.subrange(off, off + k) + s.subrange(
        32 * (idx + 1),
        32 * (idx + 1) + m,
    ));
    lemma_bits_value_append(s.subrange(off, off + k), s.subrange(32 * (idx + 1), 32 * (idx + 1) + m));
    lemma2_to64();
    // the upper part of the first word already lies below 2^k
    lemma_pow2_adds(b, k);
    lemma_pow2_pos(b);
    lemma_multiply_divide_lt(words[idx] as int, pow2(b) as int, pow2(k) as int);
    lemma_small_mod(words[idx] as nat / pow2(b), pow2(k));
}

} // verus!
