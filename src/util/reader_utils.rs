//! Free-standing reads of byte runs from a reader.
use vstd::prelude::*;
use crate::common::Result;
use crate::support::data_reader::{DataReader, p_prefixed, read_as};
use crate::wire::p_bytes;

pub use crate::support::data_reader::ReadToType;

verus! {

/// Exactly `len` bytes; fewer left fails as truncated.
pub fn read_bytes(reader: &mut DataReader, name: &str, len: usize) -> (r: Result<Vec<u8>>)
    ensures
        final(reader).input() == old(reader).input(),
        read_as(r, p_bytes(old(reader).input(), old(reader).offset(), len as int), final(reader).offset()),
{
    reader.read_bytes(name, len)
}

/// A `u16` length, then that many bytes.
pub fn read_bytes_with_pre_size(reader: &mut DataReader, name: &str) -> (r: Result<Vec<u8>>)
    ensures
        final(reader).input() == old(reader).input(),
        read_as(r, p_prefixed(old(reader).input(), old(reader).offset()), final(reader).offset()),
{
    reader.read_bytes_with_pre_size(name)
}

} // verus!
