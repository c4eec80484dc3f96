//! Big-endian integers as they stand on the wire.
//!
//! The spec functions say what a run of bytes means as a number and which
//! bytes a number is written as. The executable readers and writers go through
//! the `byteorder` crate and are trusted to agree with those functions; the
//! lemmas that relate reading and writing are proved.

use vstd::arithmetic::div_mod::lemma_fundamental_div_mod_converse;
use vstd::prelude::*;

verus! {

/// The value of two bytes read most significant first.
#[verifier::opaque]
pub open spec fn be_u16(b: Seq<u8>) -> int
    recommends
        b.len() == 2,
{
    b[0] as int * 0x100 + b[1] as int
}

/// The value of four bytes read most significant first.
#[verifier::opaque]
pub open spec fn be_u32(b: Seq<u8>) -> int
    recommends
        b.len() == 4,
{
    b[0] as int * 0x100_0000 + b[1] as int * 0x1_0000 + b[2] as int * 0x100 + b[3] as int
}

/// The value of eight bytes read most significant first.
#[verifier::opaque]
pub open spec fn be_u64(b: Seq<u8>) -> int
    recommends
        b.len() == 8,
{
    be_u32(b.subrange(0, 4)) * 0x1_0000_0000 + be_u32(b.subrange(4, 8))
}

/// The two bytes of a 16-bit number, most significant first.
#[verifier::opaque]
pub open spec fn u16_be_bytes(n: u16) -> Seq<u8> {
    seq![(n as int / 0x100) as u8, (n as int % 0x100) as u8]
}

/// The four bytes of a 32-bit number, most significant first.
#[verifier::opaque]
pub open spec fn u32_be_bytes(n: u32) -> Seq<u8> {
    seq![
        (n as int / 0x100_0000) as u8,
        (n as int / 0x1_0000 % 0x100) as u8,
        (n as int / 0x100 % 0x100) as u8,
        (n as int % 0x100) as u8,
    ]
}

/// The eight bytes of a 64-bit number, most significant first.
#[verifier::opaque]
pub open spec fn u64_be_bytes(n: u64) -> Seq<u8> {
    u32_be_bytes((n as int / 0x1_0000_0000) as u32) + u32_be_bytes(
        (n as int % 0x1_0000_0000) as u32,
    )
}

/// Reading what was written gives the number back (16 bits).
pub proof fn lemma_u16_read_write(n: u16)
    ensures
        u16_be_bytes(n).len() == 2,
        be_u16(u16_be_bytes(n)) == n,
{
    reveal(be_u16);
    reveal(u16_be_bytes);
}

/// Writing what was read gives the bytes back (16 bits).
pub proof fn lemma_u16_write_read(b: Seq<u8>)
    requires
        b.len() == 2,
    ensures
        0 <= be_u16(b) <= u16::MAX,
        u16_be_bytes(be_u16(b) as u16) == b,
{
    reveal(be_u16);
    reveal(u16_be_bytes);
    assert(u16_be_bytes(be_u16(b) as u16) =~= b);
}

/// Reading what was written gives the number back (32 bits).
pub proof fn lemma_u32_read_write(n: u32)
    ensures
        u32_be_bytes(n).len() == 4,
        be_u32(u32_be_bytes(n)) == n,
{
    reveal(be_u32);
    reveal(u32_be_bytes);
}

/// Writing what was read gives the bytes back (32 bits).
#[verifier::rlimit(40)]
pub proof fn lemma_u32_write_read(b: Seq<u8>)
    requires
        b.len() == 4,
    ensures
        0 <= be_u32(b) <= u32::MAX,
        u32_be_bytes(be_u32(b) as u32) == b,
{
    reveal(be_u32);
    reveal(u32_be_bytes);
    let n = be_u32(b);
    let (b0, b1, b2, b3) = (b[0] as int, b[1] as int, b[2] as int, b[3] as int);
    lemma_fundamental_div_mod_converse(n, 0x100_0000, b0, b1 * 0x1_0000 + b2 * 0x100 + b3);
    lemma_fundamental_div_mod_converse(n, 0x1_0000, b0 * 0x100 + b1, b2 * 0x100 + b3);
    lemma_fundamental_div_mod_converse(n / 0x1_0000, 0x100, b0, b1);
    lemma_fundamental_div_mod_converse(n, 0x100, b0 * 0x1_0000 + b1 * 0x100 + b2, b3);
    lemma_fundamental_div_mod_converse(n / 0x100, 0x100, b0 * 0x100 + b1, b2);
    assert(u32_be_bytes(n as u32) =~= b);
}

/// Reading what was written gives the number back (64 bits).
#[verifier::rlimit(40)]
pub proof fn lemma_u64_read_write(n: u64)
    ensures
        u64_be_bytes(n).len() == 8,
        be_u64(u64_be_bytes(n)) == n,
{
    reveal(be_u64);
    reveal(u64_be_bytes);
    let hi = (n as int / 0x1_0000_0000) as u32;
    let lo = (n as int % 0x1_0000_0000) as u32;
    lemma_u32_read_write(hi);
    lemma_u32_read_write(lo);
    assert(u64_be_bytes(n).subrange(0, 4) =~= u32_be_bytes(hi));
    assert(u64_be_bytes(n).subrange(4, 8) =~= u32_be_bytes(lo));
}

/// Writing what was read gives the bytes back (64 bits).
#[verifier::rlimit(40)]
pub proof fn lemma_u64_write_read(b: Seq<u8>)
    requires
        b.len() == 8,
    ensures
        0 <= be_u64(b) <= u64::MAX,
        u64_be_bytes(be_u64(b) as u64) == b,
{
    reveal(be_u64);
    reveal(u64_be_bytes);
    let hi = b.subrange(0, 4);
    let lo = b.subrange(4, 8);
    lemma_u32_write_read(hi);
    lemma_u32_write_read(lo);
    let n = be_u64(b) as u64;
    assert((n as int / 0x1_0000_0000) == be_u32(hi));
    assert((n as int % 0x1_0000_0000) == be_u32(lo));
    assert(u64_be_bytes(n) =~= hi + lo);
    assert(hi + lo =~= b);
}

/// Reads a 16-bit number with `byteorder`'s `BigEndian::read_u16`: the first
/// two bytes of the slice, most significant first. It panics on a shorter
/// slice, which the precondition leaves out.
#[verifier::external_body]
pub(crate) fn read_u16_be(buf: &[u8]) -> (r: u16)
    requires
        buf@.len() >= 2,
    ensures
        r as int == be_u16(buf@.subrange(0, 2)),
{
    <byteorder::BigEndian as byteorder::ByteOrder>::read_u16(buf)
}

/// Reads a 32-bit number with `byteorder`'s `BigEndian::read_u32`: the first
/// four bytes of the slice, most significant first. It panics on a shorter
/// slice, which the precondition leaves out.
#[verifier::external_body]
pub(crate) fn read_u32_be(buf: &[u8]) -> (r: u32)
    requires
        buf@.len() >= 4,
    ensures
        r as int == be_u32(buf@.subrange(0, 4)),
{
    <byteorder::BigEndian as byteorder::ByteOrder>::read_u32(buf)
}

/// Reads a 64-bit number with `byteorder`'s `BigEndian::read_u64`: the first
/// eight bytes of the slice, most significant first. It panics on a shorter
/// slice, which the precondition leaves out.
#[verifier::external_body]
pub(crate) fn read_u64_be(buf: &[u8]) -> (r: u64)
    requires
        buf@.len() >= 8,
    ensures
        r as int == be_u64(buf@.subrange(0, 8)),
{
    <byteorder::BigEndian as byteorder::ByteOrder>::read_u64(buf)
}

/// Writes a 16-bit number with `byteorder`'s `BigEndian::write_u16` into a
/// two-byte array: most significant byte first.
#[verifier::external_body]
pub(crate) fn u16_be(n: u16) -> (r: [u8; 2])
    ensures
        r@ == u16_be_bytes(n),
{
    let mut scratch = [0u8; 2];
    <byteorder::BigEndian as byteorder::ByteOrder>::write_u16(&mut scratch, n);
    scratch
}

/// Writes a 32-bit number with `byteorder`'s `BigEndian::write_u32` into a
/// four-byte array: most significant byte first.
#[verifier::external_body]
pub(crate) fn u32_be(n: u32) -> (r: [u8; 4])
    ensures
        r@ == u32_be_bytes(n),
{
    let mut scratch = [0u8; 4];
    <byteorder::BigEndian as byteorder::ByteOrder>::write_u32(&mut scratch, n);
    scratch
}

/// Writes a 64-bit number with `byteorder`'s `BigEndian::write_u64` into an
/// eight-byte array: most significant byte first.
#[verifier::external_body]
pub(crate) fn u64_be(n: u64) -> (r: [u8; 8])
    ensures
        r@ == u64_be_bytes(n),
{
    let mut scratch = [0u8; 8];
    <byteorder::BigEndian as byteorder::ByteOrder>::write_u64(&mut scratch, n);
    scratch
}

/// Appends a run of bytes.
pub(crate) fn append_bytes(out: &mut Vec<u8>, bytes: &[u8])
    ensures
        final(out)@ == old(out)@ + bytes@,
{
    let mut i: usize = 0;
    while i < bytes.len()
        invariant
            i <= bytes@.len(),
            out@ == old(out)@ + bytes@.subrange(0, i as int),
        decreases bytes@.len() - i,
    {
        out.push(bytes[i]);
        i += 1;
        assert(out@ =~= old(out)@ + bytes@.subrange(0, i as int));
    }
    assert(bytes@.subrange(0, i as int) =~= bytes@);
}

/// Appends a 16-bit number, most significant byte first.
pub(crate) fn put_u16_be(out: &mut Vec<u8>, n: u16)
    ensures
        final(out)@ == old(out)@ + u16_be_bytes(n),
{
    let bytes = u16_be(n);
    append_bytes(out, bytes.as_slice());
}

/// Appends a 32-bit number, most significant byte first.
pub(crate) fn put_u32_be(out: &mut Vec<u8>, n: u32)
    ensures
        final(out)@ == old(out)@ + u32_be_bytes(n),
{
    let bytes = u32_be(n);
    append_bytes(out, bytes.as_slice());
}

/// Appends a 64-bit number, most significant byte first.
pub(crate) fn put_u64_be(out: &mut Vec<u8>, n: u64)
    ensures
        final(out)@ == old(out)@ + u64_be_bytes(n),
{
    let bytes = u64_be(n);
    append_bytes(out, bytes.as_slice());
}

} // verus!
