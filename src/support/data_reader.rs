//! A cursor over an input buffer, and a growing output buffer, for the
//! wire's fixed-width big-endian integers and length-prefixed byte runs.
use vstd::prelude::*;
use crate::common::{ErrorKind, MessageError, Result};
use crate::wire::{PRes, be16, be32, be64, p_bytes, p_u16, p_u32, p_u64, p_u8};

verus! {

/// `r` is what a reader hands back for the grammar's outcome `s`, and `after`
/// is where it stopped on success.
pub open spec fn read_as<T: View>(r: Result<T>, s: PRes<T::V>, after: int) -> bool {
    match s {
        Ok((v, q)) => r is Ok && r->Ok_0@ == v && after == q,
        Err(e) => r is Err && r->Err_0.kind == e,
    }
}

/// A signed 32-bit number, as its two's-complement bits are read.
pub open spec fn p_i32(d: Seq<u8>, p: int) -> PRes<i32> {
    match p_u32(d, p) {
        Ok((v, q)) => Ok((v as i32, q)),
        Err(e) => Err(e),
    }
}

/// A signed 64-bit number, as its two's-complement bits are read.
pub open spec fn p_i64(d: Seq<u8>, p: int) -> PRes<i64> {
    match p_u64(d, p) {
        Ok((v, q)) => Ok((v as i64, q)),
        Err(e) => Err(e),
    }
}

/// A signed byte, as its two's-complement bits are read.
pub open spec fn p_i8(d: Seq<u8>, p: int) -> PRes<i8> {
    match p_u8(d, p) {
        Ok((v, q)) => Ok((v as i8, q)),
        Err(e) => Err(e),
    }
}

/// A signed 16-bit number, as its two's-complement bits are read.
pub open spec fn p_i16(d: Seq<u8>, p: int) -> PRes<i16> {
    match p_u16(d, p) {
        Ok((v, q)) => Ok((v as i16, q)),
        Err(e) => Err(e),
    }
}

/// A run of bytes preceded by its length as a `u16`.
pub open spec fn p_prefixed(d: Seq<u8>, p: int) -> PRes<Seq<u8>> {
    match p_u16(d, p) {
        Ok((n, q)) => p_bytes(d, q, n as int),
        Err(e) => Err(e),
    }
}

/// Reads from a buffer held in memory, front to back.
pub struct DataReader<'a> {
    data: &'a [u8],
    pos: usize,
}

/// Fails as truncated, naming the field.
fn truncated<T>(name: &str) -> (r: Result<T>)
    ensures
        r is Err && r->Err_0.kind == ErrorKind::TruncatedInput,
{
    Err(MessageError::with_kind(ErrorKind::TruncatedInput, name))
}

impl<'a> DataReader<'a> {
    /// The whole input.
    pub closed spec fn input(&self) -> Seq<u8> {
        self.data@
    }

    /// Where the next read starts.
    pub closed spec fn offset(&self) -> int {
        self.pos as int
    }

    /// A reader at the start of `data`.
    pub fn new(data: &'a [u8]) -> (r: DataReader<'a>)
        ensures
            r.input() == data@,
            r.offset() == 0,
    {
        DataReader { data, pos: 0 }
    }

    /// Where the next read starts.
    pub fn position(&self) -> (r: usize)
        ensures
            r == self.offset(),
    {
        self.pos
    }

    /// `len` bytes.
    pub fn read_bytes(&mut self, name: &str, len: usize) -> (r: Result<Vec<u8>>)
        ensures
            final(self).input() == old(self).input(),
            read_as(r, p_bytes(old(self).input(), old(self).offset(), len as int), final(self).offset()),
    {
        if self.pos > self.data.len() || len > self.data.len() - self.pos {
            return truncated(name);
        }
        let mut out: Vec<u8> = Vec::with_capacity(len);
        let start = self.pos;
        let mut i: usize = 0;
        while i < len
            invariant
                start + len <= self.data.len(),
                i <= len,
                out@ == self.data@.subrange(start as int, start + i),
            decreases len - i,
        {
            out.push(self.data[start + i]);
            i += 1;
            assert(out@ =~= self.data@.subrange(start as int, start + i));
        }
        self.pos = start + len;
        Ok(out)
    }

    /// A `u16` length, then that many bytes.
    pub fn read_bytes_with_pre_size(&mut self, name: &str) -> (r: Result<Vec<u8>>)
        ensures
            final(self).input() == old(self).input(),
            read_as(r, p_prefixed(old(self).input(), old(self).offset()), final(self).offset()),
    {
        let len = self.read_u16(name)?;
        self.read_bytes(name, len as usize)
    }

    /// One byte.
    pub fn read_u8(&mut self, name: &str) -> (r: Result<u8>)
        ensures
            final(self).input() == old(self).input(),
            read_as(r, p_u8(old(self).input(), old(self).offset()), final(self).offset()),
    {
        if self.pos >= self.data.len() {
            return truncated(name);
        }
        let b = self.data[self.pos];
        self.pos = self.pos + 1;
        Ok(b)
    }

    /// A big-endian `u16`.
    pub fn read_u16(&mut self, name: &str) -> (r: Result<u16>)
        ensures
            final(self).input() == old(self).input(),
            read_as(r, p_u16(old(self).input(), old(self).offset()), final(self).offset()),
    {
        if self.pos > self.data.len() || 2 > self.data.len() - self.pos {
            return truncated(name);
        }
        let p = self.pos;
        let v = self.data[p] as u16 * 0x100 + self.data[p + 1] as u16;
        self.pos = p + 2;
        Ok(v)
    }

    /// A big-endian `u32`.
    pub fn read_u32(&mut self, name: &str) -> (r: Result<u32>)
        ensures
            final(self).input() == old(self).input(),
            read_as(r, p_u32(old(self).input(), old(self).offset()), final(self).offset()),
    {
        if self.pos > self.data.len() || 4 > self.data.len() - self.pos {
            return truncated(name);
        }
        let p = self.pos;
        let v = self.data[p] as u32 * 0x100_0000 + self.data[p + 1] as u32 * 0x1_0000
            + self.data[p + 2] as u32 * 0x100 + self.data[p + 3] as u32;
        self.pos = p + 4;
        Ok(v)
    }

    /// A big-endian `u64`.
    pub fn read_u64(&mut self, name: &str) -> (r: Result<u64>)
        ensures
            final(self).input() == old(self).input(),
            read_as(r, p_u64(old(self).input(), old(self).offset()), final(self).offset()),
    {
        if self.pos > self.data.len() || 8 > self.data.len() - self.pos {
            return truncated(name);
        }
        let p = self.pos;
        let hi = self.data[p] as u32 * 0x100_0000 + self.data[p + 1] as u32 * 0x1_0000
            + self.data[p + 2] as u32 * 0x100 + self.data[p + 3] as u32;
        let lo = self.data[p + 4] as u32 * 0x100_0000 + self.data[p + 5] as u32 * 0x1_0000
            + self.data[p + 6] as u32 * 0x100 + self.data[p + 7] as u32;
        proof {
            let d = self.data@;
            assert(d.subrange(p as int, p + 8).subrange(4, 8) =~= d.subrange(p + 4, p + 8));
        }
        self.pos = p + 8;
        Ok(hi as u64 * 0x1_0000_0000 + lo as u64)
    }

    /// A two's-complement `i8`.
    pub fn read_i8(&mut self, name: &str) -> (r: Result<i8>)
        ensures
            final(self).input() == old(self).input(),
            read_as(r, p_i8(old(self).input(), old(self).offset()), final(self).offset()),
    {
        let v = self.read_u8(name)?;
        Ok(v as i8)
    }

    /// A big-endian two's-complement `i16`.
    pub fn read_i16(&mut self, name: &str) -> (r: Result<i16>)
        ensures
            final(self).input() == old(self).input(),
            read_as(r, p_i16(old(self).input(), old(self).offset()), final(self).offset()),
    {
        let v = self.read_u16(name)?;
        Ok(v as i16)
    }

    /// A big-endian two's-complement `i32`.
    pub fn read_i32(&mut self, name: &str) -> (r: Result<i32>)
        ensures
            final(self).input() == old(self).input(),
            read_as(r, p_i32(old(self).input(), old(self).offset()), final(self).offset()),
    {
        let v = self.read_u32(name)?;
        Ok(v as i32)
    }

    /// A big-endian two's-complement `i64`.
    pub fn read_i64(&mut self, name: &str) -> (r: Result<i64>)
        ensures
            final(self).input() == old(self).input(),
            read_as(r, p_i64(old(self).input(), old(self).offset()), final(self).offset()),
    {
        let v = self.read_u64(name)?;
        Ok(v as i64)
    }
}


/// Appends to a buffer held in memory.
pub struct DataWriter {
    buf: Vec<u8>,
}

impl DataWriter {
    /// Everything written so far.
    pub closed spec fn written(&self) -> Seq<u8> {
        self.buf@
    }

    /// A writer with nothing written.
    pub fn new() -> (r: DataWriter)
        ensures
            r.written() == Seq::<u8>::empty(),
    {
        DataWriter { buf: Vec::new() }
    }

    /// A writer with nothing written and room for `capacity` bytes.
    pub fn with_capacity(capacity: usize) -> (r: DataWriter)
        ensures
            r.written() == Seq::<u8>::empty(),
    {
        DataWriter { buf: Vec::with_capacity(capacity) }
    }

    /// Everything written so far, as a buffer.
    pub fn into_bytes(self) -> (r: Vec<u8>)
        ensures
            r@ == self.written(),
    {
        self.buf
    }

    /// Number of bytes written so far.
    pub fn len(&self) -> (r: usize)
        ensures
            r == self.written().len(),
    {
        self.buf.len()
    }

    fn push_all(&mut self, data: &[u8])
        ensures
            final(self).written() == old(self).written() + data@,
    {
        let ghost start = self.buf@;
        let mut i: usize = 0;
        while i < data.len()
            invariant
                i <= data.len(),
                self.buf@ == start + data@.subrange(0, i as int),
            decreases data.len() - i,
        {
            self.buf.push(data[i]);
            i += 1;
            assert(self.buf@ =~= start + data@.subrange(0, i as int));
        }
        assert(data@.subrange(0, data.len() as int) =~= data@);
    }

    /// The bytes of `data`, as they are.
    pub fn write_bytes(&mut self, name: &str, data: &[u8]) -> (r: Result<()>)
        ensures
            r is Ok,
            final(self).written() == old(self).written() + data@,
    {
        self.push_all(data);
        Ok(())
    }

    /// The length of `data` as a `u16`, then its bytes; fails as an overflow,
    /// writing nothing, when the length does not fit.
    pub fn write_bytes_with_pre_size(&mut self, name: &str, data: &[u8]) -> (r: Result<()>)
        ensures
            data@.len() <= 0xFFFF ==> r is Ok && final(self).written() == old(self).written()
                + be16(data@.len() as u16) + data@,
            data@.len() > 0xFFFF ==> r is Err && r->Err_0.kind == ErrorKind::SizeOverflow
                && final(self).written() == old(self).written(),
    {
        if data.len() > 0xFFFF {
            return Err(MessageError::with_kind(ErrorKind::SizeOverflow, name));
        }
        self.write_u16(name, data.len() as u16);
        self.push_all(data);
        Ok(())
    }

    /// One byte.
    pub fn write_u8(&mut self, name: &str, v: u8) -> (r: Result<()>)
        ensures
            r is Ok,
            final(self).written() == old(self).written().push(v),
    {
        self.buf.push(v);
        Ok(())
    }

    /// A big-endian `u16`.
    pub fn write_u16(&mut self, name: &str, v: u16) -> (r: Result<()>)
        ensures
            r is Ok,
            final(self).written() == old(self).written() + be16(v),
    {
        self.buf.push((v / 0x100) as u8);
        self.buf.push((v % 0x100) as u8);
        assert(self.buf@ =~= old(self).buf@ + be16(v));
        Ok(())
    }

    /// A big-endian `u32`.
    pub fn write_u32(&mut self, name: &str, v: u32) -> (r: Result<()>)
        ensures
            r is Ok,
            final(self).written() == old(self).written() + be32(v),
    {
        self.buf.push((v / 0x100_0000) as u8);
        self.buf.push(((v / 0x1_0000) % 0x100) as u8);
        self.buf.push(((v / 0x100) % 0x100) as u8);
        self.buf.push((v % 0x100) as u8);
        assert(self.buf@ =~= old(self).buf@ + be32(v));
        Ok(())
    }

    /// A big-endian `u64`.
    pub fn write_u64(&mut self, name: &str, v: u64) -> (r: Result<()>)
        ensures
            r is Ok,
            final(self).written() == old(self).written() + be64(v),
    {
        self.write_u32(name, (v / 0x1_0000_0000) as u32);
        self.write_u32(name, (v % 0x1_0000_0000) as u32);
        assert(self.buf@ =~= old(self).buf@ + be64(v));
        Ok(())
    }

    /// A two's-complement `i8`.
    pub fn write_i8(&mut self, name: &str, v: i8) -> (r: Result<()>)
        ensures
            r is Ok,
            final(self).written() == old(self).written().push(v as u8),
    {
        self.write_u8(name, v as u8)
    }

    /// A big-endian two's-complement `i16`.
    pub fn write_i16(&mut self, name: &str, v: i16) -> (r: Result<()>)
        ensures
            r is Ok,
            final(self).written() == old(self).written() + be16(v as u16),
    {
        self.write_u16(name, v as u16)
    }

    /// A big-endian two's-complement `i32`.
    pub fn write_i32(&mut self, name: &str, v: i32) -> (r: Result<()>)
        ensures
            r is Ok,
            final(self).written() == old(self).written() + be32(v as u32),
    {
        self.write_u32(name, v as u32)
    }

    /// A big-endian two's-complement `i64`.
    pub fn write_i64(&mut self, name: &str, v: i64) -> (r: Result<()>)
        ensures
            r is Ok,
            final(self).written() == old(self).written() + be64(v as u64),
    {
        self.write_u64(name, v as u64)
    }
}

/// Reading a value of type `T` off the wire.
pub trait ReadToType<T: View>: Sized {
    /// What reading a `T` here yields: the value and where reading stops.
    spec fn next_read(&self) -> PRes<T::V>;

    /// `after` reads the same input as `self`, from position `at`.
    spec fn same_input_at(&self, after: &Self, at: int) -> bool;

    /// Reads a `T`, as `next_read` says; the input stays the same.
    fn read_to(&mut self, name: &str) -> (r: Result<T>)
        ensures
            match old(self).next_read() {
                Ok((v, q)) => r is Ok && r->Ok_0@ == v && old(self).same_input_at(&*final(self), q),
                Err(e) => r is Err && r->Err_0.kind == e,
            },
    ;
}

/// Writing a value of type `T` to the wire.
pub trait WriteFromType<T>: Sized {
    /// The bytes that encode `data`.
    spec fn encoding(data: T) -> Seq<u8>;

    /// What `self` has written so far.
    spec fn output(&self) -> Seq<u8>;

    /// Appends the encoding of `data`.
    fn write_from(&mut self, name: &str, data: T) -> (r: Result<()>)
        ensures
            r is Ok,
            final(self).output() == old(self).output() + Self::encoding(data),
    ;
}

impl<'a> ReadToType<u8> for DataReader<'a> {
    open spec fn next_read(&self) -> PRes<u8> {
        p_u8(self.input(), self.offset())
    }

    open spec fn same_input_at(&self, after: &Self, at: int) -> bool {
        after.input() == self.input() && after.offset() == at
    }

    fn read_to(&mut self, name: &str) -> (r: Result<u8>) {
        self.read_u8(name)
    }
}

impl<'a> ReadToType<u16> for DataReader<'a> {
    open spec fn next_read(&self) -> PRes<u16> {
        p_u16(self.input(), self.offset())
    }

    open spec fn same_input_at(&self, after: &Self, at: int) -> bool {
        after.input() == self.input() && after.offset() == at
    }

    fn read_to(&mut self, name: &str) -> (r: Result<u16>) {
        self.read_u16(name)
    }
}

impl<'a> ReadToType<u32> for DataReader<'a> {
    open spec fn next_read(&self) -> PRes<u32> {
        p_u32(self.input(), self.offset())
    }

    open spec fn same_input_at(&self, after: &Self, at: int) -> bool {
        after.input() == self.input() && after.offset() == at
    }

    fn read_to(&mut self, name: &str) -> (r: Result<u32>) {
        self.read_u32(name)
    }
}

impl<'a> ReadToType<u64> for DataReader<'a> {
    open spec fn next_read(&self) -> PRes<u64> {
        p_u64(self.input(), self.offset())
    }

    open spec fn same_input_at(&self, after: &Self, at: int) -> bool {
        after.input() == self.input() && after.offset() == at
    }

    fn read_to(&mut self, name: &str) -> (r: Result<u64>) {
        self.read_u64(name)
    }
}

impl<'a> ReadToType<i32> for DataReader<'a> {
    open spec fn next_read(&self) -> PRes<i32> {
        p_i32(self.input(), self.offset())
    }

    open spec fn same_input_at(&self, after: &Self, at: int) -> bool {
        after.input() == self.input() && after.offset() == at
    }

    fn read_to(&mut self, name: &str) -> (r: Result<i32>) {
        self.read_i32(name)
    }
}

impl<'a> ReadToType<i64> for DataReader<'a> {
    open spec fn next_read(&self) -> PRes<i64> {
        p_i64(self.input(), self.offset())
    }

    open spec fn same_input_at(&self, after: &Self, at: int) -> bool {
        after.input() == self.input() && after.offset() == at
    }

    fn read_to(&mut self, name: &str) -> (r: Result<i64>) {
        self.read_i64(name)
    }
}

impl WriteFromType<u8> for DataWriter {
    open spec fn encoding(data: u8) -> Seq<u8> {
        seq![data]
    }

    open spec fn output(&self) -> Seq<u8> {
        self.written()
    }

    fn write_from(&mut self, name: &str, data: u8) -> (r: Result<()>) {
        let r = self.write_u8(name, data);
        assert(self.written() =~= old(self).written() + Self::encoding(data));
        r
    }
}

impl WriteFromType<u16> for DataWriter {
    open spec fn encoding(data: u16) -> Seq<u8> {
        be16(data)
    }

    open spec fn output(&self) -> Seq<u8> {
        self.written()
    }

    fn write_from(&mut self, name: &str, data: u16) -> (r: Result<()>) {
        let r = self.write_u16(name, data);
        assert(self.written() =~= old(self).written() + Self::encoding(data));
        r
    }
}

impl WriteFromType<u32> for DataWriter {
    open spec fn encoding(data: u32) -> Seq<u8> {
        be32(data)
    }

    open spec fn output(&self) -> Seq<u8> {
        self.written()
    }

    fn write_from(&mut self, name: &str, data: u32) -> (r: Result<()>) {
        let r = self.write_u32(name, data);
        assert(self.written() =~= old(self).written() + Self::encoding(data));
        r
    }
}

impl WriteFromType<u64> for DataWriter {
    open spec fn encoding(data: u64) -> Seq<u8> {
        be64(data)
    }

    open spec fn output(&self) -> Seq<u8> {
        self.written()
    }

    fn write_from(&mut self, name: &str, data: u64) -> (r: Result<()>) {
        let r = self.write_u64(name, data);
        assert(self.written() =~= old(self).written() + Self::encoding(data));
        r
    }
}

impl WriteFromType<i32> for DataWriter {
    open spec fn encoding(data: i32) -> Seq<u8> {
        be32(data as u32)
    }

    open spec fn output(&self) -> Seq<u8> {
        self.written()
    }

    fn write_from(&mut self, name: &str, data: i32) -> (r: Result<()>) {
        let r = self.write_i32(name, data);
        assert(self.written() =~= old(self).written() + Self::encoding(data));
        r
    }
}

impl WriteFromType<i64> for DataWriter {
    open spec fn encoding(data: i64) -> Seq<u8> {
        be64(data as u64)
    }

    open spec fn output(&self) -> Seq<u8> {
        self.written()
    }

    fn write_from(&mut self, name: &str, data: i64) -> (r: Result<()>) {
        let r = self.write_i64(name, data);
        assert(self.written() =~= old(self).written() + Self::encoding(data));
        r
    }
}

impl<'a> ReadToType<i8> for DataReader<'a> {
    open spec fn next_read(&self) -> PRes<i8> {
        p_i8(self.input(), self.offset())
    }

    open spec fn same_input_at(&self, after: &Self, at: int) -> bool {
        after.input() == self.input() && after.offset() == at
    }

    fn read_to(&mut self, name: &str) -> (r: Result<i8>) {
        self.read_i8(name)
    }
}

impl<'a> ReadToType<i16> for DataReader<'a> {
    open spec fn next_read(&self) -> PRes<i16> {
        p_i16(self.input(), self.offset())
    }

    open spec fn same_input_at(&self, after: &Self, at: int) -> bool {
        after.input() == self.input() && after.offset() == at
    }

    fn read_to(&mut self, name: &str) -> (r: Result<i16>) {
        self.read_i16(name)
    }
}

impl WriteFromType<i8> for DataWriter {
    open spec fn encoding(data: i8) -> Seq<u8> {
        seq![data as u8]
    }

    open spec fn output(&self) -> Seq<u8> {
        self.written()
    }

    fn write_from(&mut self, name: &str, data: i8) -> (r: Result<()>) {
        let r = self.write_i8(name, data);
        assert(self.written() =~= old(self).written() + Self::encoding(data));
        r
    }
}

impl WriteFromType<i16> for DataWriter {
    open spec fn encoding(data: i16) -> Seq<u8> {
        be16(data as u16)
    }

    open spec fn output(&self) -> Seq<u8> {
        self.written()
    }

    fn write_from(&mut self, name: &str, data: i16) -> (r: Result<()>) {
        let r = self.write_i16(name, data);
        assert(self.written() =~= old(self).written() + Self::encoding(data));
        r
    }
}

} // verus!
