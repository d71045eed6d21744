use vstd::arithmetic::power2::{lemma2_to64, lemma_pow2_unfold, pow2};
use vstd::prelude::*;

use crate::meshlet::VertexSizeDesc;

verus! {

/// Narrowest position width that the search tries.
pub const MIN_SEARCH_BITS: u32 = 4;

/// Number of widths the search tries, from `MIN_SEARCH_BITS` up: 4 to 30.
pub const NUM_SEARCH_BITS: usize = 27;

/// The width an axis falls back to when no searched width is precise enough.
pub const FULL_BITS: u32 = 32;

/// Bits needed to index `n` vertices: the least `b` with `n <= 2^b`.
pub open spec fn index_bits(n: nat) -> nat
    decreases n,
{
    if n <= 1 {
        0
    } else {
        1 + index_bits(((n + 1) / 2) as nat)
    }
}

/// `index_bits(n)` is the least `b` with `n <= 2^b`.
pub proof fn lemma_index_bits_least(n: nat, b: nat)
    requires
        n <= pow2(b),
        b == 0 || pow2((b - 1) as nat) < n,
    ensures
        index_bits(n) == b,
    decreases b,
{
    lemma2_to64();
    if b > 0 {
        lemma_pow2_unfold(b);
        if b == 1 {
            assert(n == 2);
            assert(index_bits(1) == 0);
        } else {
            lemma_pow2_unfold((b - 1) as nat);
            lemma_index_bits_least(((n + 1) / 2) as nat, (b - 1) as nat);
        }
    }
}

/// The bit width of the local vertex indices of a meshlet with `num_vertices` vertices:
/// the ceiling of their base-2 logarithm.
#[inline]
pub fn get_bits_per_index(num_vertices: usize) -> (r: u32)
    ensures
        r == index_bits(num_vertices as nat),
        num_vertices <= pow2(r as nat),
        r > 0 ==> pow2((r - 1) as nat) < num_vertices,
{
    let mut bits: u32 = 0;
    let mut reach: u128 = 1;
    proof {
        lemma2_to64();
    }
    while reach < num_vertices as u128
        invariant
            bits <= 64,
            reach >= 1,
            reach == pow2(bits as nat),
            bits > 0 ==> pow2((bits - 1) as nat) < num_vertices,
        decreases 64 - bits,
    {
        proof {
            lemma_pow2_unfold(bits as nat + 1);
            lemma2_to64();
            if bits == 64 {
                assert(false);
            }
        }
        bits = bits + 1;
        reach = reach * 2;
    }
    proof {
        lemma_index_bits_least(num_vertices as nat, bits as nat);
    }
    bits
}

/// The width that the search picks from `meets`, where `meets[j]` tells whether width
/// `MIN_SEARCH_BITS + j` keeps the error under the tolerance: the first such width from
/// index `j` on, or `FULL_BITS` when there is none.
pub open spec fn first_width_from(meets: Seq<bool>, j: int) -> nat
    decreases NUM_SEARCH_BITS - j,
{
    if j >= NUM_SEARCH_BITS || j >= meets.len() {
        FULL_BITS as nat
    } else if meets[j] {
        (MIN_SEARCH_BITS + j) as nat
    } else {
        first_width_from(meets, j + 1)
    }
}

pub open spec fn chosen_width(meets: Seq<bool>) -> nat {
    first_width_from(meets, 0)
}

/// Picks one axis's width: the narrowest searched width that meets the tolerance, else full
/// precision.
pub fn choose_axis_bits(meets: &[bool]) -> (r: u32)
    requires
        meets@.len() == NUM_SEARCH_BITS,
    ensures
        r == chosen_width(meets@),
        MIN_SEARCH_BITS <= r <= FULL_BITS,
{
    let mut j: usize = 0;
    while j < NUM_SEARCH_BITS
        invariant
            j <= NUM_SEARCH_BITS,
            meets@.len() == NUM_SEARCH_BITS,
            forall|i: int| 0 <= i < j ==> !meets@[i],
            chosen_width(meets@) == first_width_from(meets@, j as int),
        decreases NUM_SEARCH_BITS - j,
    {
        if meets[j] {
            return MIN_SEARCH_BITS + j as u32;
        }
        j = j + 1;
    }
    FULL_BITS
}

/// Picks the width of each position axis from what each searched width achieves on it.
pub fn choose_vertex_size(meets_x: &[bool], meets_y: &[bool], meets_z: &[bool]) -> (r:
    VertexSizeDesc)
    requires
        meets_x@.len() == NUM_SEARCH_BITS,
        meets_y@.len() == NUM_SEARCH_BITS,
        meets_z@.len() == NUM_SEARCH_BITS,
    ensures
        r.num_bits_x == chosen_width(meets_x@),
        r.num_bits_y == chosen_width(meets_y@),
        r.num_bits_z == chosen_width(meets_z@),
{
    VertexSizeDesc {
        num_bits_x: choose_axis_bits(meets_x),
        num_bits_y: choose_axis_bits(meets_y),
        num_bits_z: choose_axis_bits(meets_z),
    }
}

proof fn lemma_first_width_monotone(strict: Seq<bool>, loose: Seq<bool>, j: int)
    requires
        strict.len() == NUM_SEARCH_BITS,
        loose.len() == NUM_SEARCH_BITS,
        0 <= j,
        forall|i: int| 0 <= i < NUM_SEARCH_BITS && #[trigger] strict[i] ==> loose[i],
    ensures
        first_width_from(loose, j) <= first_width_from(strict, j),
        first_width_from(strict, j) <= FULL_BITS,
        j <= NUM_SEARCH_BITS ==> first_width_from(strict, j) >= MIN_SEARCH_BITS + j,
    decreases NUM_SEARCH_BITS - j,
{
    if j < NUM_SEARCH_BITS {
        lemma_first_width_monotone(strict, loose, j + 1);
    }
}

/// A looser tolerance never widens an axis: when every width that meets the strict
/// tolerance also meets the loose one, the width picked under the loose tolerance is at most
/// the one picked under the strict tolerance.
pub proof fn lemma_looser_tolerance_never_widens(strict: Seq<bool>, loose: Seq<bool>)
    requires
        strict.len() == NUM_SEARCH_BITS,
        loose.len() == NUM_SEARCH_BITS,
        forall|i: int| 0 <= i < NUM_SEARCH_BITS && #[trigger] strict[i] ==> loose[i],
    ensures
        chosen_width(loose) <= chosen_width(strict),
{
    lemma_first_width_monotone(strict, loose, 0);
}

} // verus!

verus! {

/// `index_bits(n)` is at most any `b` with `n <= 2^b`.
pub proof fn lemma_index_bits_at_most(n: nat, b: nat)
    requires
        n <= pow2(b),
    ensures
        index_bits(n) <= b,
    decreases b,
{
    lemma2_to64();
    if n > 1 {
        if b == 0 {
            assert(false);
        } else {
            lemma_pow2_unfold(b);
            lemma_index_bits_at_most(((n + 1) / 2) as nat, (b - 1) as nat);
        }
    }
}

/// Any `x` below `n` fits in `index_bits(n)` bits.
pub proof fn lemma_index_fits(n: nat, x: nat)
    requires
        x < n,
    ensures
        x < pow2(index_bits(n)),
    decreases n,
{
    lemma2_to64();
    if n > 1 {
        lemma_index_fits(((n + 1) / 2) as nat, x / 2);
        lemma_pow2_unfold(index_bits(n));
    }
}

} // verus!

verus! {

/// Whether every width that meets the strict tolerance meets the loose one too, as a tolerance
/// no smaller than another passes every error that the other passes.
pub open spec fn looser(strict: Seq<bool>, loose: Seq<bool>) -> bool {
    &&& strict.len() == NUM_SEARCH_BITS
    &&& loose.len() == NUM_SEARCH_BITS
    &&& forall|i: int| 0 <= i < NUM_SEARCH_BITS && #[trigger] strict[i] ==> loose[i]
}

/// Raising the tolerance never raises a chosen width, and lowering it never lowers one: the
/// sizes that `choose_vertex_size` returns under a strict and a loose tolerance are ordered
/// axis by axis.
pub proof fn lemma_vertex_size_monotone(
    strict: (Seq<bool>, Seq<bool>, Seq<bool>),
    loose: (Seq<bool>, Seq<bool>, Seq<bool>),
    strict_size: VertexSizeDesc,
    loose_size: VertexSizeDesc,
)
    requires
        looser(strict.0, loose.0),
        looser(strict.1, loose.1),
        looser(strict.2, loose.2),
        strict_size.num_bits_x == chosen_width(strict.0),
        strict_size.num_bits_y == chosen_width(strict.1),
        strict_size.num_bits_z == chosen_width(strict.2),
        loose_size.num_bits_x == chosen_width(loose.0),
        loose_size.num_bits_y == chosen_width(loose.1),
        loose_size.num_bits_z == chosen_width(loose.2),
    ensures
        loose_size.num_bits_x <= strict_size.num_bits_x,
        loose_size.num_bits_y <= strict_size.num_bits_y,
        loose_size.num_bits_z <= strict_size.num_bits_z,
{
    lemma_looser_tolerance_never_widens(strict.0, loose.0);
    lemma_looser_tolerance_never_widens(strict.1, loose.1);
    lemma_looser_tolerance_never_widens(strict.2, loose.2);
}

proof fn lemma_none_met_from(meets: Seq<bool>, j: int)
    requires
        meets.len() == NUM_SEARCH_BITS,
        0 <= j,
        forall|i: int| 0 <= i < NUM_SEARCH_BITS ==> !#[trigger] meets[i],
    ensures
        first_width_from(meets, j) == FULL_BITS,
    decreases NUM_SEARCH_BITS - j,
{
    if j < NUM_SEARCH_BITS {
        lemma_none_met_from(meets, j + 1);
    }
}

/// A tolerance that no searched width meets, such as zero, forces full 32-bit precision on
/// every axis.
pub proof fn lemma_no_width_met_is_full_precision(
    meets: (Seq<bool>, Seq<bool>, Seq<bool>),
    size: VertexSizeDesc,
)
    requires
        meets.0.len() == NUM_SEARCH_BITS,
        meets.1.len() == NUM_SEARCH_BITS,
        meets.2.len() == NUM_SEARCH_BITS,
        forall|i: int| 0 <= i < NUM_SEARCH_BITS ==> !#[trigger] meets.0[i],
        forall|i: int| 0 <= i < NUM_SEARCH_BITS ==> !#[trigger] meets.1[i],
        forall|i: int| 0 <= i < NUM_SEARCH_BITS ==> !#[trigger] meets.2[i],
        size.num_bits_x == chosen_width(meets.0),
        size.num_bits_y == chosen_width(meets.1),
        size.num_bits_z == chosen_width(meets.2),
    ensures
        size.num_bits_x == FULL_BITS,
        size.num_bits_y == FULL_BITS,
        size.num_bits_z == FULL_BITS,
{
    lemma_none_met_from(meets.0, 0);
    lemma_none_met_from(meets.1, 0);
    lemma_none_met_from(meets.2, 0);
}

} // verus!
