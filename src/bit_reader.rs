use vstd::arithmetic::div_mod::lemma_small_mod;
use vstd::arithmetic::power2::{lemma2_to64, lemma_pow2_adds, lemma_pow2_pos, pow2};
use vstd::bits::{
    lemma_u32_low_bits_mask_is_mod, lemma_u32_pow2_no_overflow, lemma_u32_shl_is_mul,
    lemma_u32_shr_is_div, low_bits_mask,
};
use vstd::prelude::*;

use crate::bits::{
    bits_of, field, lemma_bits_round_trip, lemma_field_across_words, lemma_field_in_word, word_bits,
};
use crate::meshlet::{concat, lemma_concat_piece, lemma_concat_take_next};

verus! {

/// Reads fields of any width up to 32 bits, least significant bit first, from a buffer of
/// words, starting at a bit offset.
pub struct BitReader<'a> {
    buffer: &'a [u32],
    offset: usize,
}

/// The mask of the low `n` bits, for `n` of at most 32.
fn width_mask(n: u32) -> (r: u32)
    requires
        n <= 32,
    ensures
        n < 32 ==> r == low_bits_mask(n as nat),
        n < 32 ==> r == ((1u32 << n) - 1) as u32,
        n == 32 ==> r == 0xffff_ffffu32,
{
    if n == 32 {
        0xffff_ffffu32
    } else {
        proof {
            lemma_u32_pow2_no_overflow(n as nat);
            lemma_u32_shl_is_mul(1, n);
        }
        (1u32 << n) - 1
    }
}

proof fn lemma_join_words(lo: u32, hi: u32, b: u32, n: u32, k: u32, m: u32, mask: u32, hi_mask: u32)
    by (bit_vector)
    requires
        0 < b < 32,
        32 < b + n,
        n <= 32,
        k == 32 - b,
        m == b + n - 32,
        n < 32 ==> mask == ((1u32 << n) - 1) as u32,
        n == 32 ==> mask == 0xffff_ffffu32,
        hi_mask == ((1u32 << m) - 1) as u32,
    ensures
        ((lo >> b) | (hi << k)) & mask == (lo >> b) + ((hi & hi_mask) << k),
        (lo >> b) < (1u32 << k),
        (hi & hi_mask) < (1u32 << m),
{
}

impl<'a> BitReader<'a> {
    /// The buffer the fields are read from.
    pub closed spec fn buffer(&self) -> Seq<u32> {
        self.buffer@
    }

    /// The bit offset of the next field.
    pub closed spec fn offset(&self) -> nat {
        self.offset as nat
    }

    #[inline]
    pub fn new(buffer: &'a [u32], offset: usize) -> (r: Self)
        ensures
            r.buffer() == buffer@,
            r.offset() == offset,
    {
        Self { buffer, offset }
    }

    /// Reads the next `num_bits` bits as an unsigned number and moves past them. The buffer
    /// is not bounds-checked at run time: the field must lie inside it.
    #[inline]
    #[verifier::rlimit(30)]
    pub fn read_bits_unchecked(&mut self, num_bits: u32) -> (r: u32)
        requires
            num_bits <= 32,
            old(self).offset() + num_bits <= 32 * old(self).buffer().len(),
            old(self).offset() + num_bits <= usize::MAX,
        ensures
            final(self).buffer() == old(self).buffer(),
            final(self).offset() == old(self).offset() + num_bits,
            r == field(word_bits(old(self).buffer()), old(self).offset() as int, num_bits as nat),
    {
        let bit_idx = (self.offset % 32) as u32;
        let idx = self.offset / 32;
        let ghost words = self.buffer@;
        let ghost off = self.offset as int;
        assert(off == 32 * (idx as int) + bit_idx as int);

        self.offset = self.offset + num_bits as usize;

        if num_bits == 0 {
            proof {
                lemma2_to64();
            }
            return 0;
        }
        assert(idx < self.buffer@.len()) by (nonlinear_arith)
            requires
                idx == off / 32,
                off + num_bits <= 32 * words.len(),
                num_bits > 0,
                words.len() == self.buffer@.len(),
        ;
        let mask = width_mask(num_bits);
        let lo = self.buffer[idx];
        if bit_idx + num_bits <= 32 {
            let r = (lo >> bit_idx) & mask;
            proof {
                lemma_field_in_word(words, idx as int, bit_idx as nat, num_bits as nat);
                if bit_idx < 32 {
                    lemma_u32_shr_is_div(lo, bit_idx);
                }
                if num_bits < 32 {
                    lemma_u32_low_bits_mask_is_mod(lo >> bit_idx, num_bits as nat);
                    lemma_u32_pow2_no_overflow(num_bits as nat);
                } else {
                    assert(bit_idx == 0);
                    assert((lo >> 0u32) & 0xffff_ffffu32 == lo) by (bit_vector);
                    lemma2_to64();
                    lemma_pow2_pos(32);
                    lemma_small_mod(lo as nat, pow2(32));
                }
            }
            r
        } else {
            assert(idx + 1 < self.buffer@.len()) by (nonlinear_arith)
                requires
                    idx == off / 32,
                    bit_idx == off % 32,
                    off + num_bits <= 32 * words.len(),
                    bit_idx + num_bits > 32,
                    words.len() == self.buffer@.len(),
            ;
            let hi = self.buffer[idx + 1];
            let r = ((lo >> bit_idx) | (hi << (32 - bit_idx))) & mask;
            proof {
                let k = (32 - bit_idx) as u32;
                let m = (bit_idx + num_bits - 32) as u32;
                lemma_u32_pow2_no_overflow(m as nat);
                lemma_u32_shl_is_mul(1, m);
                let hi_mask = ((1u32 << m) - 1) as u32;
                lemma_join_words(lo, hi, bit_idx, num_bits, k, m, mask, hi_mask);
                lemma_field_across_words(words, idx as int, bit_idx as nat, num_bits as nat);
                lemma_u32_shr_is_div(lo, bit_idx);
                lemma_u32_low_bits_mask_is_mod(hi, m as nat);
                lemma_u32_pow2_no_overflow(k as nat);
                lemma_u32_shl_is_mul(1, k);
                lemma_pow2_adds(m as nat, k as nat);
                if num_bits < 32 {
                    lemma_u32_pow2_no_overflow(num_bits as nat);
                }
                lemma2_to64();
                let x = hi & hi_mask;
                assert(x * pow2(k as nat) < pow2(m as nat) * pow2(k as nat)) by (nonlinear_arith)
                    requires
                        x < pow2(m as nat),
                        pow2(k as nat) > 0,
                ;
                lemma_u32_shl_is_mul(x, k);
                assert(hi_mask == low_bits_mask(m as nat));
                assert(x == hi as nat % pow2(m as nat));
                assert(lo >> bit_idx == lo as nat / pow2(bit_idx as nat));
                assert(r == lo as nat / pow2(bit_idx as nat) + pow2(k as nat) * x) by (nonlinear_arith)
                    requires
                        r == lo as nat / pow2(bit_idx as nat) + x * pow2(k as nat),
                ;
            }
            r
        }
    }
}

} // verus!

verus! {

/// Fields packed one after another, each as `(value, width)` and least significant bit first.
pub open spec fn packed_fields(fields: Seq<(u32, u32)>) -> Seq<bool> {
    concat(field_pieces(fields))
}

pub open spec fn field_pieces(fields: Seq<(u32, u32)>) -> Seq<Seq<bool>> {
    Seq::new(fields.len(), |j: int| bits_of(fields[j].0 as nat, fields[j].1 as nat))
}

/// Reading packed fields back in order: when a stream holds fields packed from bit `o`, field
/// `j` is found at `o` plus the bits of the fields before it, which is where a reader that
/// started at `o` stands after reading those fields, and it reads back as its value when the
/// value fits its width.
pub proof fn lemma_packed_fields_read_back(s: Seq<bool>, o: int, fields: Seq<(u32, u32)>, j: int)
    requires
        0 <= o,
        o + packed_fields(fields).len() <= s.len(),
        s.subrange(o, o + packed_fields(fields).len()) == packed_fields(fields),
        0 <= j < fields.len(),
        fields[j].0 < pow2(fields[j].1 as nat),
    ensures
        packed_fields(fields.take(j + 1)).len() == packed_fields(fields.take(j)).len()
            + fields[j].1,
        field(s, o + packed_fields(fields.take(j)).len(), fields[j].1 as nat) == fields[j].0,
{
    let ps = field_pieces(fields);
    let w = fields[j].1 as nat;
    assert(field_pieces(fields.take(j)) =~= ps.take(j));
    assert(field_pieces(fields.take(j + 1)) =~= ps.take(j + 1));
    lemma_concat_take_next(ps, j);
    lemma_concat_piece(ps, j);
    let p = concat(ps.take(j)).len() as int;
    assert forall|i: int| 0 <= i < w implies s.subrange(o + p, o + p + w)[i] == ps[j][i] by {
        assert(s.subrange(o, o + packed_fields(fields).len())[p + i] == s[o + p + i]);
        assert(concat(ps).subrange(p, p + w)[i] == concat(ps)[p + i]);
    }
    assert(s.subrange(o + p, o + p + w) =~= bits_of(fields[j].0 as nat, w));
    lemma_bits_round_trip(fields[j].0 as nat, w);
}

} // verus!
