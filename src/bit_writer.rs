use bitstream_io::{BitWrite, BitWriter, LittleEndian};
use vstd::prelude::*;

use crate::bits::{bits_of, bits_value, zero_bits};

verus! {

/// A little-endian bit writer of `bitstream_io` over a growing byte vector: the bits it has
/// taken, of which whole bytes already sit in the vector and the rest wait in its queue.
#[verifier::external_body]
pub struct BitSink {
    inner: BitWriter<Vec<u8>, LittleEndian>,
}

/// The bits that a little-endian bit writer over a byte vector has taken so far, in order.
pub uninterp spec fn written_bits(w: BitSink) -> Seq<bool>;

/// The bytes that hold a stream of whole bytes: bit `t` of byte `i` is bit `8 * i + t`.
pub open spec fn pack_bytes(s: Seq<bool>) -> Seq<u8> {
    Seq::new(s.len() / 8, |i: int| bits_value(s.subrange(8 * i, 8 * i + 8)) as u8)
}

/// The number of zero bits that carry a stream of `len` bits to a byte boundary.
pub open spec fn byte_padding(len: nat) -> nat {
    ((8 - len % 8) % 8) as nat
}

/// Relies on `bitstream_io::BitWriter::new`: a new writer has taken no bits.
#[verifier::external_body]
pub(crate) fn new_writer() -> (w: BitSink)
    ensures
        written_bits(w) == Seq::<bool>::empty(),
{
    BitSink { inner: BitWriter::new(Vec::new()) }
}

/// Relies on `BitWrite::write` of `bitstream_io::BitWriter` in little-endian order: it fails
/// exactly on a value that does not fit in `bits` bits (a growing vector takes every byte),
/// and otherwise the low `bits` bits of `value` follow what was written, least significant
/// first.
#[verifier::external_body]
pub(crate) fn write_bits(w: &mut BitSink, bits: u32, value: u32) -> (ok: bool)
    requires
        bits <= 32,
    ensures
        ok == (value < vstd::arithmetic::power2::pow2(bits as nat)),
        ok ==> written_bits(*final(w)) == written_bits(*old(w)) + bits_of(value as nat, bits as nat),
{
    w.inner.write(bits, value).is_ok()
}

/// Relies on `BitWrite::byte_align` of `bitstream_io::BitWriter`: zero bits up to the next
/// byte boundary follow what was written; a growing vector takes every byte, so it succeeds.
#[verifier::external_body]
pub(crate) fn align_writer(w: &mut BitSink) -> (ok: bool)
    ensures
        ok,
        written_bits(*final(w)) == written_bits(*old(w)) + zero_bits(
            byte_padding(written_bits(*old(w)).len()),
        ),
{
    w.inner.byte_align().is_ok()
}

/// Relies on `bitstream_io::BitWriter::into_writer`: once the stream is byte-aligned, the
/// vector holds every bit taken, the first in the least significant bit of the first byte.
#[verifier::external_body]
pub(crate) fn writer_bytes(w: BitSink) -> (bytes: Vec<u8>)
    requires
        written_bits(w).len() % 8 == 0,
    ensures
        bytes@ == pack_bytes(written_bits(w)),
{
    w.inner.into_writer()
}

} // verus!
