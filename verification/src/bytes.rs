use vstd::prelude::*;
use byteorder::{BigEndian, ByteOrder, LittleEndian, WriteBytesExt};

verus! {

/// The little-endian value of the 2 bytes at `pos`.
pub open spec fn le_u16(b: Seq<u8>, pos: int) -> int {
    b[pos] + b[pos + 1] * 0x100
}

/// The little-endian value of the 4 bytes at `pos`.
pub open spec fn le_u32(b: Seq<u8>, pos: int) -> int {
    le_u16(b, pos) + le_u16(b, pos + 2) * 0x10000
}

/// The little-endian value of the 8 bytes at `pos`.
pub open spec fn le_u64(b: Seq<u8>, pos: int) -> int {
    le_u32(b, pos) + le_u32(b, pos + 4) * 0x1_0000_0000
}

/// The big-endian value of the 4 bytes at `pos`.
pub open spec fn be_u32(b: Seq<u8>, pos: int) -> int {
    b[pos + 3] + b[pos + 2] * 0x100 + b[pos + 1] * 0x10000 + b[pos] * 0x100_0000
}

/// The big-endian value of the 8 bytes at `pos`.
pub open spec fn be_u64(b: Seq<u8>, pos: int) -> int {
    be_u32(b, pos + 4) + be_u32(b, pos) * 0x1_0000_0000
}

/// The little-endian bytes of `v`.
pub open spec fn le_bytes_u64(v: u64) -> Seq<u8> {
    seq![
        (v & 0xff) as u8,
        ((v >> 8) & 0xff) as u8,
        ((v >> 16) & 0xff) as u8,
        ((v >> 24) & 0xff) as u8,
        ((v >> 32) & 0xff) as u8,
        ((v >> 40) & 0xff) as u8,
        ((v >> 48) & 0xff) as u8,
        ((v >> 56) & 0xff) as u8,
    ]
}

/// The little-endian bytes of `v`.
pub open spec fn le_bytes_u32(v: u32) -> Seq<u8> {
    seq![
        (v & 0xff) as u8,
        ((v >> 8) & 0xff) as u8,
        ((v >> 16) & 0xff) as u8,
        ((v >> 24) & 0xff) as u8,
    ]
}

/// byteorder `LittleEndian::read_u16` on `data[pos..pos + 2]`; the contract
/// claims the little-endian value of those two bytes.
#[verifier::external_body]
pub(crate) fn read_le_u16(data: &[u8], pos: usize) -> (r: u16)
    requires
        pos + 2 <= data.len(),
    ensures
        r == le_u16(data@, pos as int),
{
    <LittleEndian as ByteOrder>::read_u16(&data[pos..pos + 2])
}

/// byteorder `LittleEndian::read_u32` on `data[pos..pos + 4]`; the contract
/// claims the little-endian value of those four bytes.
#[verifier::external_body]
pub(crate) fn read_le_u32(data: &[u8], pos: usize) -> (r: u32)
    requires
        pos + 4 <= data.len(),
    ensures
        r == le_u32(data@, pos as int),
{
    <LittleEndian as ByteOrder>::read_u32(&data[pos..pos + 4])
}

/// byteorder `LittleEndian::read_u64` on `data[pos..pos + 8]`; the contract
/// claims the little-endian value of those eight bytes.
#[verifier::external_body]
pub(crate) fn read_le_u64(data: &[u8], pos: usize) -> (r: u64)
    requires
        pos + 8 <= data.len(),
    ensures
        r == le_u64(data@, pos as int),
{
    <LittleEndian as ByteOrder>::read_u64(&data[pos..pos + 8])
}

/// byteorder `BigEndian::read_u32` on `data[pos..pos + 4]`; the contract
/// claims the big-endian value of those four bytes.
#[verifier::external_body]
pub(crate) fn read_be_u32(data: &[u8], pos: usize) -> (r: u32)
    requires
        pos + 4 <= data.len(),
    ensures
        r == be_u32(data@, pos as int),
{
    <BigEndian as ByteOrder>::read_u32(&data[pos..pos + 4])
}

/// byteorder `BigEndian::read_u64` on `data[pos..pos + 8]`; the contract
/// claims the big-endian value of those eight bytes.
#[verifier::external_body]
pub(crate) fn read_be_u64(data: &[u8], pos: usize) -> (r: u64)
    requires
        pos + 8 <= data.len(),
    ensures
        r == be_u64(data@, pos as int),
{
    <BigEndian as ByteOrder>::read_u64(&data[pos..pos + 8])
}

/// byteorder `LittleEndian::read_i32` on `data[pos..pos + 4]`; the contract
/// claims the little-endian value of those four bytes, read as two's complement.
#[verifier::external_body]
pub(crate) fn read_le_i32(data: &[u8], pos: usize) -> (r: i32)
    requires
        pos + 4 <= data.len(),
    ensures
        r == le_u32(data@, pos as int) as i32,
{
    <LittleEndian as ByteOrder>::read_i32(&data[pos..pos + 4])
}

/// byteorder `BigEndian::read_i32` on `data[pos..pos + 4]`; the contract
/// claims the big-endian value of those four bytes, read as two's complement.
#[verifier::external_body]
pub(crate) fn read_be_i32(data: &[u8], pos: usize) -> (r: i32)
    requires
        pos + 4 <= data.len(),
    ensures
        r == be_u32(data@, pos as int) as i32,
{
    <BigEndian as ByteOrder>::read_i32(&data[pos..pos + 4])
}

/// byteorder `WriteBytesExt::write_u64::<LittleEndian>` on a byte vector;
/// the contract claims the vector grows by the little-endian bytes of `v`.
#[verifier::external_body]
pub(crate) fn push_le_u64(out: &mut Vec<u8>, v: u64)
    ensures
        final(out)@ == old(out)@ + le_bytes_u64(v),
{
    let _ = WriteBytesExt::write_u64::<LittleEndian>(out, v);
}

/// byteorder `WriteBytesExt::write_i32::<LittleEndian>` on a byte vector;
/// the contract claims the vector grows by the little-endian bytes of the
/// two's complement of `v`.
#[verifier::external_body]
pub(crate) fn push_le_i32(out: &mut Vec<u8>, v: i32)
    ensures
        final(out)@ == old(out)@ + le_bytes_u32(v as u32),
{
    let _ = WriteBytesExt::write_i32::<LittleEndian>(out, v);
}

/// Eight little-endian bytes of `v` at `pos` read back as `v`.
pub proof fn lemma_le_u64_read_back(data: Seq<u8>, pos: int, v: u64)
    requires
        0 <= pos,
        pos + 8 <= data.len(),
        data.subrange(pos, pos + 8) == le_bytes_u64(v),
    ensures
        le_u64(data, pos) == v,
{
    let b = le_bytes_u64(v);
    assert forall|k: int| 0 <= k < 8 implies data[pos + k] == #[trigger] b[k] by {
        assert(data.subrange(pos, pos + 8)[k] == data[pos + k]);
    }
    assert((((v & 0xff) as u8) as u64 == v & 0xff) && ((((v >> 8) & 0xff) as u8) as u64 == (v
        >> 8) & 0xff) && ((((v >> 16) & 0xff) as u8) as u64 == (v >> 16) & 0xff) && ((((v >> 24)
        & 0xff) as u8) as u64 == (v >> 24) & 0xff) && ((((v >> 32) & 0xff) as u8) as u64 == (v
        >> 32) & 0xff) && ((((v >> 40) & 0xff) as u8) as u64 == (v >> 40) & 0xff) && ((((v >> 48)
        & 0xff) as u8) as u64 == (v >> 48) & 0xff) && ((((v >> 56) & 0xff) as u8) as u64 == (v
        >> 56) & 0xff)) by (bit_vector);
    assert((v & 0xff) + ((v >> 8) & 0xff) * 0x100 + ((v >> 16) & 0xff) * 0x10000 + ((v >> 24)
        & 0xff) * 0x1000000 + ((v >> 32) & 0xff) * 0x100000000 + ((v >> 40) & 0xff)
        * 0x10000000000 + ((v >> 48) & 0xff) * 0x1000000000000 + ((v >> 56) & 0xff)
        * 0x100000000000000 == v) by (bit_vector);
}

/// Four little-endian bytes of `v` at `pos` read back as `v`.
pub proof fn lemma_le_u32_read_back(data: Seq<u8>, pos: int, v: u32)
    requires
        0 <= pos,
        pos + 4 <= data.len(),
        data.subrange(pos, pos + 4) == le_bytes_u32(v),
    ensures
        le_u32(data, pos) == v,
{
    let b = le_bytes_u32(v);
    assert forall|k: int| 0 <= k < 4 implies data[pos + k] == #[trigger] b[k] by {
        assert(data.subrange(pos, pos + 4)[k] == data[pos + k]);
    }
    assert((((v & 0xff) as u8) as u32 == v & 0xff) && ((((v >> 8) & 0xff) as u8) as u32 == (v
        >> 8) & 0xff) && ((((v >> 16) & 0xff) as u8) as u32 == (v >> 16) & 0xff) && ((((v >> 24)
        & 0xff) as u8) as u32 == (v >> 24) & 0xff)) by (bit_vector);
    assert((v & 0xff) + ((v >> 8) & 0xff) * 0x100 + ((v >> 16) & 0xff) * 0x10000 + ((v >> 24)
        & 0xff) * 0x1000000 == v) by (bit_vector);
}

/// An index below 2^31 written as a little-endian `i32` reads back as
/// itself.
pub proof fn lemma_index_read_back(data: Seq<u8>, pos: int, idx: usize)
    requires
        0 <= pos,
        pos + 4 <= data.len(),
        idx < 0x8000_0000,
        data.subrange(pos, pos + 4) == le_bytes_u32((idx as i32) as u32),
    ensures
        (le_u32(data, pos) as i32) as usize == idx,
{
    assert((idx as i32) as u32 == idx) by (bit_vector)
        requires
            idx < 0x8000_0000usize,
    ;
    lemma_le_u32_read_back(data, pos, (idx as i32) as u32);
    let w: u32 = idx as u32;
    assert(w < 0x8000_0000);
    assert((w as i32) as usize == w) by (bit_vector)
        requires
            w < 0x8000_0000u32,
    ;
}

} // verus!
