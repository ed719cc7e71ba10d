//! Reading fixed-size runs and numbers from a reader, as plain bytes first.
use vstd::prelude::*;
use crate::common::Result;
use crate::support::data_reader::{DataReader, read_as};
use crate::util::byte_utils::{be_num, bytes_to_u16_be, bytes_to_u32_be};
use crate::wire::{p_bytes, p_u16, p_u32};

verus! {

/// Exactly `bytes` bytes; fewer left fails as truncated.
pub fn read_class_bytes(reader: &mut DataReader, name: &str, bytes: usize) -> (r: Result<Vec<u8>>)
    ensures
        final(reader).input() == old(reader).input(),
        read_as(r, p_bytes(old(reader).input(), old(reader).offset(), bytes as int), final(reader).offset()),
{
    reader.read_bytes(name, bytes)
}

/// Two bytes, as a big-endian `u16`.
pub fn read_class_bytes_u16(reader: &mut DataReader, name: &str) -> (r: Result<u16>)
    ensures
        final(reader).input() == old(reader).input(),
        read_as(r, p_u16(old(reader).input(), old(reader).offset()), final(reader).offset()),
{
    let bytes = read_class_bytes(reader, name, 2)?;
    let v = bytes_to_u16_be(bytes.as_slice());
    proof {
        let b = bytes@;
        let t = b.take(2).drop_last();
        assert(b.take(2) =~= b);
        assert(t.drop_last().len() == 0);
        assert(be_num(t.drop_last()) == 0);
        assert(be_num(t) == b[0] as nat);
    }
    Ok(v)
}

/// Four bytes, as a big-endian `u32`.
pub fn read_class_bytes_u32(reader: &mut DataReader, name: &str) -> (r: Result<u32>)
    ensures
        final(reader).input() == old(reader).input(),
        read_as(r, p_u32(old(reader).input(), old(reader).offset()), final(reader).offset()),
{
    let bytes = read_class_bytes(reader, name, 4)?;
    let v = bytes_to_u32_be(bytes.as_slice());
    proof {
        let b = bytes@;
        assert(b.take(4) =~= b);
        let s1 = b.take(1);
        let s2 = b.take(2);
        let s3 = b.take(3);
        assert(s1.drop_last().len() == 0);
        assert(be_num(s1.drop_last()) == 0);
        assert(s2.drop_last() =~= s1);
        assert(s3.drop_last() =~= s2);
        assert(b.drop_last() =~= s3);
        assert(be_num(s1) == b[0] as nat);
        assert(be_num(s2) == b[0] as nat * 256 + b[1] as nat);
        assert(be_num(s3) == (b[0] as nat * 256 + b[1] as nat) * 256 + b[2] as nat);
        assert(be_num(b) == ((b[0] as nat * 256 + b[1] as nat) * 256 + b[2] as nat) * 256
            + b[3] as nat);
    }
    Ok(v)
}

} // verus!
