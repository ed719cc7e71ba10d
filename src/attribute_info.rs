//! Attributes: the opaque form (a name index and raw bytes), and the code
//! attribute parsed from an opaque one's bytes, with its exception table.
use vstd::prelude::*;
use crate::common::{ErrorKind, MessageError, Result};
use crate::support::data_reader::{DataReader, DataWriter, read_as};
use crate::wire::{
    PRes, be16, be32, inverts, p_bytes, p_counted, p_many, p_u16, p_u32, ser_counted, ser_many,
    sum_many, truncates,
};

verus! {

/// An attribute whose bytes are kept as they are, keyed by its name index.
#[derive(Debug)]
pub struct OriginAttribute {
    pub name: u16,
    pub data: Vec<u8>,
}

/// An opaque attribute as a mathematical value.
pub struct AttributeModel {
    pub name: u16,
    pub data: Seq<u8>,
}

impl View for OriginAttribute {
    type V = AttributeModel;

    open spec fn view(&self) -> AttributeModel {
        AttributeModel { name: self.name, data: self.data@ }
    }
}

/// The attributes of a list, as mathematical values.
pub open spec fn attrs_view(v: Seq<OriginAttribute>) -> Seq<AttributeModel> {
    v.map_values(|a: OriginAttribute| a@)
}

/// An attribute on the wire: name index, `u32` length, then the bytes.
pub open spec fn p_attribute(d: Seq<u8>, p: int) -> PRes<AttributeModel> {
    match p_u16(d, p) {
        Ok((name, q)) => match p_u32(d, q) {
            Ok((len, r)) => match p_bytes(d, r, len as int) {
                Ok((data, t)) => Ok((AttributeModel { name, data }, t)),
                Err(e) => Err(e),
            },
            Err(e) => Err(e),
        },
        Err(e) => Err(e),
    }
}

impl AttributeModel {
    /// The attribute's encoding.
    pub open spec fn bytes(self) -> Seq<u8> {
        be16(self.name) + be32(self.data.len() as u32) + self.data
    }

    /// Its length fits the `u32` field.
    pub open spec fn encodable(self) -> bool {
        self.data.len() <= 0xFFFF_FFFF
    }

    /// The size of its encoding: a six-byte header, then the bytes.
    pub open spec fn size(self) -> int {
        6 + self.data.len() as int
    }
}

pub open spec fn attribute_parser() -> spec_fn(Seq<u8>, int) -> PRes<AttributeModel> {
    |d: Seq<u8>, p: int| p_attribute(d, p)
}

pub open spec fn attribute_bytes() -> spec_fn(AttributeModel) -> Seq<u8> {
    |a: AttributeModel| a.bytes()
}

pub open spec fn attribute_size() -> spec_fn(AttributeModel) -> int {
    |a: AttributeModel| a.size()
}

/// A `u16` count of attributes, then the attributes.
pub open spec fn p_attributes(d: Seq<u8>, p: int) -> PRes<Seq<AttributeModel>> {
    p_counted(d, p, attribute_parser())
}

/// A list of attributes on the wire: the count, then each attribute.
pub open spec fn attributes_bytes(s: Seq<AttributeModel>) -> Seq<u8> {
    ser_counted(s, attribute_bytes())
}

/// The list and each attribute fit their count and length fields.
pub open spec fn attributes_encodable(s: Seq<AttributeModel>) -> bool {
    &&& s.len() <= 0xFFFF
    &&& forall|i: int| 0 <= i < s.len() ==> (#[trigger] s[i]).encodable()
}

/// The size of a list's encoding: two bytes of count, then each attribute's
/// size.
pub open spec fn attributes_size(s: Seq<AttributeModel>) -> int {
    2 + sum_many(s, attribute_size())
}

/// An attribute read is exactly the bytes it was read from, and cutting the
/// input short cuts it off as truncated.
pub proof fn lemma_attribute_parser()
    ensures
        inverts(attribute_parser(), attribute_bytes()),
        truncates(attribute_parser()),
{
    assert forall|d: Seq<u8>, p: int| #[trigger] attribute_parser()(d, p) is Ok implies {
        let (x, q) = attribute_parser()(d, p)->Ok_0;
        &&& 0 <= p <= q <= d.len()
        &&& d.subrange(p, q) == attribute_bytes()(x)
    } by {
        let (a, q) = p_attribute(d, p)->Ok_0;
        crate::wire::lemma_be16_of(d[p], d[p + 1]);
        crate::wire::lemma_be32_of(d.subrange(p + 2, p + 6));
        assert(d.subrange(p, q) =~= a.bytes());
    }
    assert forall|d: Seq<u8>, p: int, k: int|
        attribute_parser()(d, p) is Ok && 0 <= k <= d.len() implies #[trigger] attribute_parser()(
        d.take(k),
        p,
    ) == if attribute_parser()(d, p)->Ok_0.1 <= k {
        attribute_parser()(d, p)
    } else {
        Err(ErrorKind::TruncatedInput)
    } by {
        crate::wire::lemma_take_reads(d, k);
    }
}

/// Attributes read are within the fields' limits and are exactly their
/// encodings.
pub proof fn lemma_attributes_inverts(d: Seq<u8>, p: int)
    ensures
        p_attributes(d, p) is Ok ==> {
            let (s, q) = p_attributes(d, p)->Ok_0;
            &&& 0 <= p <= q <= d.len()
            &&& attributes_encodable(s)
            &&& d.subrange(p, q) == attributes_bytes(s)
        },
{
    lemma_attribute_parser();
    crate::wire::lemma_counted_inverts(d, p, attribute_parser(), attribute_bytes());
    if p_attributes(d, p) is Ok {
        let (n, q0) = p_u16(d, p)->Ok_0;
        lemma_many_items(d, q0, n as nat);
    }
}

proof fn lemma_many_items(d: Seq<u8>, p: int, n: nat)
    ensures
        p_many(d, p, n, attribute_parser()) is Ok ==> {
            let s = p_many(d, p, n, attribute_parser())->Ok_0.0;
            forall|i: int| 0 <= i < s.len() ==> (#[trigger] s[i]).encodable()
        },
    decreases n,
{
    if n > 0 {
        lemma_many_items(d, p, (n - 1) as nat);
    }
}

/// The encoding of a list of attributes is as long as its size says.
pub proof fn lemma_attributes_len(s: Seq<AttributeModel>)
    ensures
        attributes_bytes(s).len() == attributes_size(s),
        sum_many(s, attribute_size()) >= 0,
{
    assert forall|a: AttributeModel| #[trigger] attribute_bytes()(a).len() == attribute_size()(a) by {}
    crate::wire::lemma_ser_len(s, attribute_bytes(), attribute_size());
    assert forall|a: AttributeModel| #[trigger] attribute_size()(a) >= 0 by {}
    crate::wire::lemma_sum_prefix(s, attribute_size(), 0);
}

impl OriginAttribute {
    /// The name index, the `u32` length, then that many bytes.
    pub fn new_from_reader(reader: &mut DataReader) -> (r: Result<OriginAttribute>)
        ensures
            final(reader).input() == old(reader).input(),
            read_as(r, p_attribute(old(reader).input(), old(reader).offset()), final(reader).offset()),
    {
        let name = reader.read_u16("attribute name")?;
        let len = reader.read_u32("attribute length")?;
        let data = reader.read_bytes("attribute data", len as usize)?;
        Ok(OriginAttribute { name, data })
    }

    /// Writes the name index, the length, then the bytes; fails as an
    /// overflow when the length does not fit a `u32`.
    pub fn write_to(&self, writer: &mut DataWriter) -> (r: Result<()>)
        ensures
            r is Ok <==> self@.encodable(),
            r is Ok ==> final(writer).written() == old(writer).written() + self@.bytes(),
            r is Err ==> r->Err_0.kind == ErrorKind::SizeOverflow,
    {
        if self.data.len() > 0xFFFF_FFFF {
            return Err(MessageError::with_kind(ErrorKind::SizeOverflow, "attribute length"));
        }
        writer.write_u16("attribute name", self.name)?;
        writer.write_u32("attribute length", self.data.len() as u32)?;
        writer.write_bytes("attribute data", self.data.as_slice())?;
        assert(writer.written() =~= old(writer).written() + self@.bytes());
        Ok(())
    }

    /// The number of bytes `write_to` writes.
    pub fn byte_size(&self) -> (r: usize)
        requires
            self@.size() <= usize::MAX,
        ensures
            r == self@.size(),
    {
        6 + self.data.len()
    }

    /// A copy of this attribute.
    pub fn duplicate(&self) -> (r: OriginAttribute)
        ensures
            r@ == self@,
    {
        OriginAttribute { name: self.name, data: self.data.clone() }
    }
}

impl Clone for OriginAttribute {
    fn clone(&self) -> (r: Self)
        ensures
            r@ == self@,
    {
        self.duplicate()
    }
}

/// A count, then that many attributes.
pub fn read_attributes(reader: &mut DataReader, name: &str) -> (r: Result<Vec<OriginAttribute>>)
    ensures
        final(reader).input() == old(reader).input(),
        match p_attributes(old(reader).input(), old(reader).offset()) {
            Ok((s, q)) => r is Ok && attrs_view(r->Ok_0@) == s && final(reader).offset() == q,
            Err(e) => r is Err && r->Err_0.kind == e,
        },
{
    let n = reader.read_u16(name)?;
    let ghost d = reader.input();
    let ghost start = reader.offset();
    let mut out: Vec<OriginAttribute> = Vec::with_capacity(n as usize);
    assert(attrs_view(out@) =~= Seq::<AttributeModel>::empty());
    let mut i: u16 = 0;
    while i < n
        invariant
            old(reader).input() == d,
            p_attributes(d, old(reader).offset()) == p_many(d, start, n as nat, attribute_parser()),
            i <= n,
            reader.input() == d,
            out@.len() == i,
            p_many(d, start, i as nat, attribute_parser()) == Ok::<(Seq<AttributeModel>, int), ErrorKind>((attrs_view(out@), reader.offset())),
        decreases n - i,
    {
        let a = match OriginAttribute::new_from_reader(reader) {
            Ok(a) => a,
            Err(e) => {
                proof {
                    crate::wire::lemma_many_err(d, start, (i + 1) as nat, n as nat, attribute_parser());
                }
                return Err(e);
            },
        };
        let ghost prev = out@;
        out.push(a);
        assert(attrs_view(out@) =~= attrs_view(prev).push(a@));
        i = i + 1;
    }
    Ok(out)
}

/// The count, then each attribute; fails as an overflow when the count or a
/// length does not fit.
pub fn write_attributes(attrs: &Vec<OriginAttribute>, writer: &mut DataWriter, name: &str) -> (r: Result<()>)
    ensures
        r is Ok <==> attributes_encodable(attrs_view(attrs@)),
        r is Ok ==> final(writer).written() == old(writer).written() + attributes_bytes(
            attrs_view(attrs@),
        ),
        r is Err ==> r->Err_0.kind == ErrorKind::SizeOverflow,
{
    let ghost s = attrs_view(attrs@);
    if attrs.len() > 0xFFFF {
        return Err(MessageError::with_kind(ErrorKind::SizeOverflow, name));
    }
    writer.write_u16(name, attrs.len() as u16)?;
    let ghost mid = writer.written();
    let mut i: usize = 0;
    while i < attrs.len()
        invariant
            s == attrs_view(attrs@),
            s.len() == attrs@.len(),
            attrs@.len() <= 0xFFFF,
            i <= attrs@.len(),
            mid == old(writer).written() + be16(attrs@.len() as u16),
            forall|j: int| 0 <= j < i ==> (#[trigger] s[j]).encodable(),
            writer.written() == mid + ser_many(s.take(i as int), attribute_bytes()),
        decreases attrs@.len() - i,
    {
        match attrs[i].write_to(writer) {
            Ok(()) => {},
            Err(e) => {
                assert(!s[i as int].encodable());
                return Err(e);
            },
        }
        proof {
            crate::wire::lemma_ser_step(s, attribute_bytes(), i as int);
        }
        i = i + 1;
    }
    assert(s.take(s.len() as int) =~= s);
    assert(writer.written() =~= old(writer).written() + attributes_bytes(s));
    Ok(())
}

/// The number of bytes `write_attributes` writes.
pub fn attributes_byte_size(attrs: &Vec<OriginAttribute>) -> (r: usize)
    requires
        attributes_size(attrs_view(attrs@)) <= usize::MAX,
    ensures
        r == attributes_size(attrs_view(attrs@)),
{
    let ghost s = attrs_view(attrs@);
    proof {
        assert forall|a: AttributeModel| #[trigger] attribute_size()(a) >= 0 by {}
    }
    let mut total: usize = 2;
    let mut i: usize = 0;
    while i < attrs.len()
        invariant
            s == attrs_view(attrs@),
            s.len() == attrs@.len(),
            i <= attrs@.len(),
            2 + sum_many(s, attribute_size()) <= usize::MAX,
            forall|a: AttributeModel| #[trigger] attribute_size()(a) >= 0,
            total == 2 + sum_many(s.take(i as int), attribute_size()),
        decreases attrs@.len() - i,
    {
        proof {
            crate::wire::lemma_sum_step(s, attribute_size(), i as int);
            crate::wire::lemma_sum_prefix(s, attribute_size(), i + 1);
        }
        total = total + attrs[i].byte_size();
        i = i + 1;
    }
    assert(s.take(s.len() as int) =~= s);
    total
}


/// One row of an exception table: the covered code range, the handler, and
/// the caught class (0 for any).
#[derive(Clone, Copy, Debug, PartialEq, Eq, Structural)]
pub struct ExceptionTableEntry {
    pub start_pc: u16,
    pub end_pc: u16,
    pub handler_pc: u16,
    pub catch_type: u16,
}

impl View for ExceptionTableEntry {
    type V = ExceptionTableEntry;

    open spec fn view(&self) -> ExceptionTableEntry {
        *self
    }
}

/// An exception-table row on the wire: four `u16`s.
pub open spec fn p_entry(d: Seq<u8>, p: int) -> PRes<ExceptionTableEntry> {
    match p_u16(d, p) {
        Ok((a, q1)) => match p_u16(d, q1) {
            Ok((b, q2)) => match p_u16(d, q2) {
                Ok((c, q3)) => match p_u16(d, q3) {
                    Ok((e, q4)) => Ok((
                        ExceptionTableEntry { start_pc: a, end_pc: b, handler_pc: c, catch_type: e },
                        q4,
                    )),
                    Err(x) => Err(x),
                },
                Err(x) => Err(x),
            },
            Err(x) => Err(x),
        },
        Err(x) => Err(x),
    }
}

/// A row's encoding.
pub open spec fn entry_bytes(e: ExceptionTableEntry) -> Seq<u8> {
    be16(e.start_pc) + be16(e.end_pc) + be16(e.handler_pc) + be16(e.catch_type)
}

pub open spec fn entry_parser() -> spec_fn(Seq<u8>, int) -> PRes<ExceptionTableEntry> {
    |d: Seq<u8>, p: int| p_entry(d, p)
}

pub open spec fn entry_bytes_fn() -> spec_fn(ExceptionTableEntry) -> Seq<u8> {
    |e: ExceptionTableEntry| entry_bytes(e)
}

/// An exception table on the wire: a `u16` count, then the rows.
pub open spec fn p_table(d: Seq<u8>, p: int) -> PRes<Seq<ExceptionTableEntry>> {
    p_counted(d, p, entry_parser())
}

/// A table's encoding.
pub open spec fn table_bytes(s: Seq<ExceptionTableEntry>) -> Seq<u8> {
    ser_counted(s, entry_bytes_fn())
}

/// Rows read are exactly their encodings, and a short input cuts them off.
pub proof fn lemma_entry_parser()
    ensures
        inverts(entry_parser(), entry_bytes_fn()),
        truncates(entry_parser()),
{
    assert forall|d: Seq<u8>, p: int| #[trigger] entry_parser()(d, p) is Ok implies {
        let (x, q) = entry_parser()(d, p)->Ok_0;
        &&& 0 <= p <= q <= d.len()
        &&& d.subrange(p, q) == entry_bytes_fn()(x)
    } by {
        let (e, q) = p_entry(d, p)->Ok_0;
        crate::wire::lemma_be16_of(d[p], d[p + 1]);
        crate::wire::lemma_be16_of(d[p + 2], d[p + 3]);
        crate::wire::lemma_be16_of(d[p + 4], d[p + 5]);
        crate::wire::lemma_be16_of(d[p + 6], d[p + 7]);
        assert(d.subrange(p, q) =~= entry_bytes(e));
    }
    assert forall|d: Seq<u8>, p: int, k: int|
        entry_parser()(d, p) is Ok && 0 <= k <= d.len() implies #[trigger] entry_parser()(
        d.take(k),
        p,
    ) == if entry_parser()(d, p)->Ok_0.1 <= k {
        entry_parser()(d, p)
    } else {
        Err(ErrorKind::TruncatedInput)
    } by {
        crate::wire::lemma_take_reads(d, k);
    }
}

/// The rows of a table are each eight bytes.
pub proof fn lemma_entries_len(s: Seq<ExceptionTableEntry>)
    ensures
        ser_many(s, entry_bytes_fn()).len() == 8 * s.len(),
    decreases s.len(),
{
    if s.len() > 0 {
        lemma_entries_len(s.drop_last());
    }
}

impl ExceptionTableEntry {
    /// Four big-endian `u16`s: start, end, handler, caught class.
    pub fn new_with_reader(reader: &mut DataReader) -> (r: Result<ExceptionTableEntry>)
        ensures
            final(reader).input() == old(reader).input(),
            read_as(r, p_entry(old(reader).input(), old(reader).offset()), final(reader).offset()),
    {
        let start_pc = reader.read_u16("exception start pc")?;
        let end_pc = reader.read_u16("exception end pc")?;
        let handler_pc = reader.read_u16("exception handler pc")?;
        let catch_type = reader.read_u16("exception catch type")?;
        Ok(ExceptionTableEntry { start_pc, end_pc, handler_pc, catch_type })
    }

    /// Writes the four fields.
    pub fn write_to(&self, writer: &mut DataWriter) -> (r: Result<()>)
        ensures
            r is Ok,
            final(writer).written() == old(writer).written() + entry_bytes(*self),
    {
        writer.write_u16("exception start pc", self.start_pc)?;
        writer.write_u16("exception end pc", self.end_pc)?;
        writer.write_u16("exception handler pc", self.handler_pc)?;
        writer.write_u16("exception catch type", self.catch_type)?;
        assert(writer.written() =~= old(writer).written() + entry_bytes(*self));
        Ok(())
    }

    /// The size of a row on the wire.
    pub fn byte_size() -> (r: usize)
        ensures
            r == 8,
            forall|e: ExceptionTableEntry| #[trigger] entry_bytes(e).len() == r,
    {
        8
    }
}

/// The exception table of a code attribute.
#[derive(Debug)]
pub struct ExceptionTable {
    pub entries: Vec<ExceptionTableEntry>,
}

impl View for ExceptionTable {
    type V = Seq<ExceptionTableEntry>;

    open spec fn view(&self) -> Seq<ExceptionTableEntry> {
        self.entries@
    }
}

impl ExceptionTable {
    /// A `u16` count, then that many rows.
    pub fn new_with_reader(reader: &mut DataReader) -> (r: Result<ExceptionTable>)
        ensures
            final(reader).input() == old(reader).input(),
            read_as(r, p_table(old(reader).input(), old(reader).offset()), final(reader).offset()),
    {
        let n = reader.read_u16("exception table length")?;
        let ghost d = reader.input();
        let ghost start = reader.offset();
        let mut entries: Vec<ExceptionTableEntry> = Vec::with_capacity(n as usize);
        let mut i: u16 = 0;
        while i < n
            invariant
                old(reader).input() == d,
                p_table(d, old(reader).offset()) == p_many(d, start, n as nat, entry_parser()),
                i <= n,
                reader.input() == d,
                entries@.len() == i,
                p_many(d, start, i as nat, entry_parser()) == Ok::<(Seq<ExceptionTableEntry>, int), ErrorKind>((entries@, reader.offset())),
            decreases n - i,
        {
            let e = match ExceptionTableEntry::new_with_reader(reader) {
                Ok(e) => e,
                Err(x) => {
                    proof {
                        crate::wire::lemma_many_err(d, start, (i + 1) as nat, n as nat, entry_parser());
                    }
                    return Err(x);
                },
            };
            entries.push(e);
            i = i + 1;
        }
        Ok(ExceptionTable { entries })
    }

    /// The count, then each row; fails as an overflow when the count does not
    /// fit a `u16`.
    pub fn write_to(&self, writer: &mut DataWriter) -> (r: Result<()>)
        ensures
            r is Ok <==> self@.len() <= 0xFFFF,
            r is Ok ==> final(writer).written() == old(writer).written() + table_bytes(self@),
            r is Err ==> r->Err_0.kind == ErrorKind::SizeOverflow,
    {
        if self.entries.len() > 0xFFFF {
            return Err(MessageError::with_kind(ErrorKind::SizeOverflow, "exception table length"));
        }
        writer.write_u16("exception table length", self.entries.len() as u16)?;
        let ghost mid = writer.written();
        let mut i: usize = 0;
        while i < self.entries.len()
            invariant
                i <= self@.len(),
                self@.len() <= 0xFFFF,
                mid == old(writer).written() + be16(self@.len() as u16),
                writer.written() == mid + ser_many(self@.take(i as int), entry_bytes_fn()),
            decreases self@.len() - i,
        {
            self.entries[i].write_to(writer)?;
            proof {
                crate::wire::lemma_ser_step(self@, entry_bytes_fn(), i as int);
            }
            i = i + 1;
        }
        assert(self@.take(self@.len() as int) =~= self@);
        assert(writer.written() =~= old(writer).written() + table_bytes(self@));
        Ok(())
    }

    /// The size of the rows, eight bytes each; the row count is part of the
    /// code attribute's fixed header.
    pub fn byte_size(&self) -> (r: usize)
        requires
            8 * self@.len() <= usize::MAX,
        ensures
            r == 8 * self@.len(),
    {
        self.entries.len() * ExceptionTableEntry::byte_size()
    }
}

/// A code attribute as a mathematical value.
pub struct CodeModel {
    pub max_stack: u16,
    pub max_locals: u16,
    pub code: Seq<u8>,
    pub exceptions: Seq<ExceptionTableEntry>,
    pub attributes: Seq<AttributeModel>,
}

/// A code attribute's bytes: the stack and local limits, the `u32`-counted
/// code, the exception table and the nested attributes.
pub open spec fn p_code(d: Seq<u8>, p: int) -> PRes<CodeModel> {
    match p_u16(d, p) {
        Ok((max_stack, q1)) => match p_u16(d, q1) {
            Ok((max_locals, q2)) => match p_u32(d, q2) {
                Ok((len, q3)) => match p_bytes(d, q3, len as int) {
                    Ok((code, q4)) => match p_table(d, q4) {
                        Ok((exceptions, q5)) => match p_attributes(d, q5) {
                            Ok((attributes, q6)) => Ok((
                                CodeModel { max_stack, max_locals, code, exceptions, attributes },
                                q6,
                            )),
                            Err(e) => Err(e),
                        },
                        Err(e) => Err(e),
                    },
                    Err(e) => Err(e),
                },
                Err(e) => Err(e),
            },
            Err(e) => Err(e),
        },
        Err(e) => Err(e),
    }
}

impl CodeModel {
    /// The code attribute's encoding.
    pub open spec fn bytes(self) -> Seq<u8> {
        be16(self.max_stack) + be16(self.max_locals) + be32(self.code.len() as u32) + self.code
            + table_bytes(self.exceptions) + attributes_bytes(self.attributes)
    }

    /// Every length and count fits its field.
    pub open spec fn encodable(self) -> bool {
        &&& self.code.len() <= 0xFFFF_FFFF
        &&& self.exceptions.len() <= 0xFFFF
        &&& attributes_encodable(self.attributes)
    }

    /// The size of the encoding: twelve bytes of fixed header, the code,
    /// eight bytes per exception-table row, and each nested attribute.
    pub open spec fn size(self) -> int {
        12 + self.code.len() + 8 * self.exceptions.len() + sum_many(
            self.attributes,
            attribute_size(),
        )
    }
}

/// The attribute's structured form, parsed from the bytes of an opaque
/// attribute named "Code".
#[derive(Debug)]
pub struct CodeAttribute {
    pub codes: Vec<u8>,
    pub max_stack: u16,
    pub max_locals: u16,
    pub exceptions: ExceptionTable,
    pub attributes: Vec<OriginAttribute>,
}

impl View for CodeAttribute {
    type V = CodeModel;

    open spec fn view(&self) -> CodeModel {
        CodeModel {
            max_stack: self.max_stack,
            max_locals: self.max_locals,
            code: self.codes@,
            exceptions: self.exceptions@,
            attributes: attrs_view(self.attributes@),
        }
    }
}

impl CodeAttribute {
    /// Parses the bytes of an opaque attribute from their start.
    pub fn new_with_data(data: &[u8]) -> (r: Result<CodeAttribute>)
        ensures
            match p_code(data@, 0) {
                Ok((c, q)) => r is Ok && r->Ok_0@ == c,
                Err(e) => r is Err && r->Err_0.kind == e,
            },
    {
        let mut reader = DataReader::new(data);
        CodeAttribute::new_with_reader(&mut reader)
    }

    /// The stack and local limits, the code, the exception table, then the
    /// nested attributes.
    pub fn new_with_reader(reader: &mut DataReader) -> (r: Result<CodeAttribute>)
        ensures
            final(reader).input() == old(reader).input(),
            read_as(r, p_code(old(reader).input(), old(reader).offset()), final(reader).offset()),
    {
        let max_stack = reader.read_u16("max stack")?;
        let max_locals = reader.read_u16("max locals")?;
        let code_len = reader.read_u32("code length")?;
        let codes = reader.read_bytes("code", code_len as usize)?;
        let exceptions = ExceptionTable::new_with_reader(reader)?;
        let attributes = read_attributes(reader, "code attribute count")?;
        Ok(CodeAttribute { codes, max_stack, max_locals, exceptions, attributes })
    }

    /// Writes the attribute's bytes into `writer`.
    pub fn write_to(&self, writer: &mut DataWriter) -> (r: Result<()>)
        ensures
            r is Ok <==> self@.encodable(),
            r is Ok ==> final(writer).written() == old(writer).written() + self@.bytes(),
            r is Err ==> r->Err_0.kind == ErrorKind::SizeOverflow,
    {
        if self.codes.len() > 0xFFFF_FFFF {
            return Err(MessageError::with_kind(ErrorKind::SizeOverflow, "code length"));
        }
        writer.write_u16("max stack", self.max_stack)?;
        writer.write_u16("max locals", self.max_locals)?;
        writer.write_u32("code length", self.codes.len() as u32)?;
        writer.write_bytes("code", self.codes.as_slice())?;
        let ghost w1 = writer.written();
        self.exceptions.write_to(writer)?;
        let ghost w2 = writer.written();
        write_attributes(&self.attributes, writer, "code attribute count")?;
        assert(writer.written() =~= old(writer).written() + self@.bytes());
        Ok(())
    }

    /// The attribute's bytes, as they stand in an opaque attribute.
    pub fn to_bytes(&self) -> (r: Result<Vec<u8>>)
        ensures
            r is Ok <==> self@.encodable(),
            r is Ok ==> r->Ok_0@ == self@.bytes(),
            r is Err ==> r->Err_0.kind == ErrorKind::SizeOverflow,
    {
        let mut writer = DataWriter::new();
        self.write_to(&mut writer)?;
        assert(Seq::<u8>::empty() + self@.bytes() =~= self@.bytes());
        Ok(writer.into_bytes())
    }

    /// The number of bytes `to_bytes` gives.
    pub fn byte_size(&self) -> (r: usize)
        requires
            self@.size() <= usize::MAX,
        ensures
            r == self@.size(),
    {
        proof {
            assert forall|a: AttributeModel| #[trigger] attribute_size()(a) >= 0 by {}
            crate::wire::lemma_sum_prefix(self@.attributes, attribute_size(), 0);
        }
        let attrs = attributes_byte_size(&self.attributes);
        10 + self.codes.len() + self.exceptions.byte_size() + attrs
    }
}


/// The encoding of a code attribute is as long as its size says.
pub proof fn lemma_code_size(c: CodeModel)
    ensures
        c.bytes().len() == c.size(),
{
    lemma_entries_len(c.exceptions);
    lemma_attributes_len(c.attributes);
}

/// A list of attributes read from a prefix of the input: as before when the
/// prefix holds all of it, truncated otherwise.
pub proof fn lemma_attributes_truncates(d: Seq<u8>, p: int, k: int)
    requires
        p_attributes(d, p) is Ok,
        0 <= k <= d.len(),
    ensures
        p_attributes(d.take(k), p) == if p_attributes(d, p)->Ok_0.1 <= k {
            p_attributes(d, p)
        } else {
            Err(ErrorKind::TruncatedInput)
        },
{
    lemma_attribute_parser();
    crate::wire::lemma_counted_truncates(d, p, k, attribute_parser(), attribute_bytes());
}


/// Code round trip: a code attribute read from bytes can be written back, and
/// its encoding is exactly the bytes it was read from.
pub proof fn lemma_code_inverts(d: Seq<u8>, p: int)
    ensures
        p_code(d, p) is Ok ==> {
            let (c, q) = p_code(d, p)->Ok_0;
            &&& 0 <= p <= q <= d.len()
            &&& c.encodable()
            &&& d.subrange(p, q) == c.bytes()
        },
{
    if p_code(d, p) is Ok {
        let (c, q6) = p_code(d, p)->Ok_0;
        let (len, q3) = p_u32(d, p + 4)->Ok_0;
        let q4 = q3 + len;
        let q5 = p_table(d, q4)->Ok_0.1;
        lemma_entry_parser();
        crate::wire::lemma_counted_inverts(d, q4, entry_parser(), entry_bytes_fn());
        lemma_attributes_inverts(d, q5);
        crate::wire::lemma_be16_of(d[p], d[p + 1]);
        crate::wire::lemma_be16_of(d[p + 2], d[p + 3]);
        crate::wire::lemma_be32_of(d.subrange(p + 4, p + 8));
        assert(d.subrange(p, p + 8) =~= be16(c.max_stack) + be16(c.max_locals) + be32(
            c.code.len() as u32,
        ));
        assert(d.subrange(p, q6) =~= d.subrange(p, p + 8) + d.subrange(p + 8, q4) + d.subrange(
            q4,
            q5,
        ) + d.subrange(q5, q6));
    }
}


/// A copy of a list of attributes.
pub fn clone_attributes(v: &Vec<OriginAttribute>) -> (r: Vec<OriginAttribute>)
    ensures
        attrs_view(r@) == attrs_view(v@),
{
    let r = v.clone();
    assert forall|i: int| 0 <= i < v@.len() implies r@[i]@ == v@[i]@ by {
        assert(cloned(v@[i], r@[i]));
    }
    assert(attrs_view(r@) =~= attrs_view(v@));
    r
}


/// Truncation of a code attribute: cutting its bytes anywhere before the
/// point where reading it stops makes reading it fail as truncated.
pub proof fn lemma_code_truncated_fails(d: Seq<u8>, p: int, k: int)
    requires
        p_code(d, p) is Ok,
        p <= k < p_code(d, p)->Ok_0.1,
        0 <= k,
    ensures
        p_code(d.take(k), p) == Err::<(CodeModel, int), ErrorKind>(ErrorKind::TruncatedInput),
{
    crate::wire::lemma_take_reads(d, k);
    lemma_code_inverts(d, p);
    let (len, q3) = p_u32(d, p + 4)->Ok_0;
    let q4 = q3 + len;
    lemma_entry_parser();
    crate::wire::lemma_counted_inverts(d, q4, entry_parser(), entry_bytes_fn());
    crate::wire::lemma_counted_truncates(d, q4, k, entry_parser(), entry_bytes_fn());
    let q5 = p_table(d, q4)->Ok_0.1;
    lemma_attributes_inverts(d, q5);
    lemma_attributes_truncates(d, q5, k);
}

} // verus!
