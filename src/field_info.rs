//! Fields, and the record shape that fields and methods share: access flags,
//! name and descriptor indices, and a list of opaque attributes.
use vstd::prelude::*;
use crate::attribute_info::{
    AttributeModel, OriginAttribute, attributes_bytes, attributes_encodable, attributes_size,
    attrs_view, clone_attributes, lemma_attributes_inverts, lemma_attributes_truncates, p_attributes,
    read_attributes, write_attributes,
};
use crate::common::{ErrorKind, Result};
use crate::support::data_reader::{DataReader, DataWriter, read_as};
use crate::wire::{PRes, be16, inverts, p_u16, truncates};

verus! {

/// A field or method record as a mathematical value.
pub struct MemberModel {
    pub access_flags: u16,
    pub name: u16,
    pub descriptor: u16,
    pub attributes: Seq<AttributeModel>,
}

/// A field or method record on the wire: flags, name and descriptor indices,
/// then the counted attributes.
pub open spec fn p_member(d: Seq<u8>, p: int) -> PRes<MemberModel> {
    match p_u16(d, p) {
        Ok((access_flags, q1)) => match p_u16(d, q1) {
            Ok((name, q2)) => match p_u16(d, q2) {
                Ok((descriptor, q3)) => match p_attributes(d, q3) {
                    Ok((attributes, q4)) => Ok(
                        (MemberModel { access_flags, name, descriptor, attributes }, q4),
                    ),
                    Err(e) => Err(e),
                },
                Err(e) => Err(e),
            },
            Err(e) => Err(e),
        },
        Err(e) => Err(e),
    }
}

impl MemberModel {
    /// The record's encoding.
    pub open spec fn bytes(self) -> Seq<u8> {
        be16(self.access_flags) + be16(self.name) + be16(self.descriptor) + attributes_bytes(
            self.attributes,
        )
    }

    /// Its attributes fit their count and length fields.
    pub open spec fn encodable(self) -> bool {
        attributes_encodable(self.attributes)
    }

    /// The size of its encoding: a six-byte header, then the attribute list.
    pub open spec fn size(self) -> int {
        6 + attributes_size(self.attributes)
    }
}

pub open spec fn member_parser() -> spec_fn(Seq<u8>, int) -> PRes<MemberModel> {
    |d: Seq<u8>, p: int| p_member(d, p)
}

pub open spec fn member_bytes() -> spec_fn(MemberModel) -> Seq<u8> {
    |m: MemberModel| m.bytes()
}

pub open spec fn member_size() -> spec_fn(MemberModel) -> int {
    |m: MemberModel| m.size()
}

/// A record read is exactly its encoding and can be written back, and a short
/// input cuts it off as truncated.
pub proof fn lemma_member_parser()
    ensures
        inverts(member_parser(), member_bytes()),
        truncates(member_parser()),
        forall|d: Seq<u8>, p: int| #[trigger]
            p_member(d, p) is Ok ==> p_member(d, p)->Ok_0.0.encodable(),
{
    assert forall|d: Seq<u8>, p: int| #[trigger] p_member(d, p) is Ok implies {
        let (x, q) = p_member(d, p)->Ok_0;
        &&& 0 <= p <= q <= d.len()
        &&& d.subrange(p, q) == x.bytes()
        &&& x.encodable()
    } by {
        let (m, q) = p_member(d, p)->Ok_0;
        lemma_attributes_inverts(d, p + 6);
        crate::wire::lemma_be16_of(d[p], d[p + 1]);
        crate::wire::lemma_be16_of(d[p + 2], d[p + 3]);
        crate::wire::lemma_be16_of(d[p + 4], d[p + 5]);
        assert(d.subrange(p, q) =~= d.subrange(p, p + 6) + d.subrange(p + 6, q));
        assert(d.subrange(p, q) =~= m.bytes());
    }
    assert forall|d: Seq<u8>, p: int| #[trigger] member_parser()(d, p) is Ok implies {
        let (x, q) = member_parser()(d, p)->Ok_0;
        &&& 0 <= p <= q <= d.len()
        &&& d.subrange(p, q) == member_bytes()(x)
    } by {
        assert(p_member(d, p) is Ok);
    }
    assert forall|d: Seq<u8>, p: int, k: int|
        member_parser()(d, p) is Ok && 0 <= k <= d.len() implies #[trigger] member_parser()(
        d.take(k),
        p,
    ) == if member_parser()(d, p)->Ok_0.1 <= k {
        member_parser()(d, p)
    } else {
        Err(ErrorKind::TruncatedInput)
    } by {
        crate::wire::lemma_take_reads(d, k);
        lemma_attributes_inverts(d, p + 6);
        if p + 6 <= k {
            lemma_attributes_truncates(d, p + 6, k);
        }
    }
}

/// A field: access flags, name and descriptor indices, and its attributes.
#[derive(Debug)]
pub struct FieldInfo {
    pub access_flags: u16,
    pub name: u16,
    pub descriptor: u16,
    pub attributes: Vec<OriginAttribute>,
}

impl View for FieldInfo {
    type V = MemberModel;

    open spec fn view(&self) -> MemberModel {
        MemberModel {
            access_flags: self.access_flags,
            name: self.name,
            descriptor: self.descriptor,
            attributes: attrs_view(self.attributes@),
        }
    }
}

impl FieldInfo {
    /// Flags, name and descriptor indices, then the counted attributes.
    pub fn new_from_reader(reader: &mut DataReader) -> (r: Result<FieldInfo>)
        ensures
            final(reader).input() == old(reader).input(),
            read_as(r, p_member(old(reader).input(), old(reader).offset()), final(reader).offset()),
    {
        let access_flags = reader.read_u16("field access flags")?;
        let name = reader.read_u16("field name")?;
        let descriptor = reader.read_u16("field descriptor")?;
        let attributes = read_attributes(reader, "field attribute count")?;
        Ok(FieldInfo { access_flags, name, descriptor, attributes })
    }

    /// Writes the record; fails as an overflow when an attribute count or
    /// length does not fit.
    pub fn write_to(&self, writer: &mut DataWriter) -> (r: Result<()>)
        ensures
            r is Ok <==> self@.encodable(),
            r is Ok ==> final(writer).written() == old(writer).written() + self@.bytes(),
            r is Err ==> r->Err_0.kind == ErrorKind::SizeOverflow,
    {
        writer.write_u16("field access flags", self.access_flags)?;
        writer.write_u16("field name", self.name)?;
        writer.write_u16("field descriptor", self.descriptor)?;
        write_attributes(&self.attributes, writer, "field attribute count")?;
        assert(writer.written() =~= old(writer).written() + self@.bytes());
        Ok(())
    }
}

impl Clone for FieldInfo {
    fn clone(&self) -> (r: Self)
        ensures
            r@ == self@,
    {
        FieldInfo {
            access_flags: self.access_flags,
            name: self.name,
            descriptor: self.descriptor,
            attributes: clone_attributes(&self.attributes),
        }
    }
}

} // verus!
