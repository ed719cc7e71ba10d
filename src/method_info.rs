//! Methods: the same record shape as fields.
use vstd::prelude::*;
use crate::attribute_info::{
    OriginAttribute, attrs_view, clone_attributes, read_attributes, write_attributes,
};
use crate::common::{ErrorKind, Result};
use crate::field_info::{MemberModel, p_member};
use crate::support::data_reader::{DataReader, DataWriter, read_as};

verus! {

/// A method: access flags, name and descriptor indices, and its attributes
/// (among them, usually, its code).
#[derive(Debug)]
pub struct MethodInfo {
    pub access_flags: u16,
    pub name: u16,
    pub descriptor: u16,
    pub attributes: Vec<OriginAttribute>,
}

impl View for MethodInfo {
    type V = MemberModel;

    open spec fn view(&self) -> MemberModel {
        MemberModel {
            access_flags: self.access_flags,
            name: self.name,
            descriptor: self.descriptor,
            attributes: attrs_view(self.attributes@),
        }
    }
}

impl MethodInfo {
    /// Flags, name and descriptor indices, then the counted attributes.
    pub fn new_from_reader(reader: &mut DataReader) -> (r: Result<MethodInfo>)
        ensures
            final(reader).input() == old(reader).input(),
            read_as(r, p_member(old(reader).input(), old(reader).offset()), final(reader).offset()),
    {
        let access_flags = reader.read_u16("method access flags")?;
        let name = reader.read_u16("method name")?;
        let descriptor = reader.read_u16("method descriptor")?;
        let attributes = read_attributes(reader, "method attribute count")?;
        Ok(MethodInfo { access_flags, name, descriptor, attributes })
    }

    /// Writes the record; fails as an overflow when an attribute count or
    /// length does not fit.
    pub fn write_to(&self, writer: &mut DataWriter) -> (r: Result<()>)
        ensures
            r is Ok <==> self@.encodable(),
            r is Ok ==> final(writer).written() == old(writer).written() + self@.bytes(),
            r is Err ==> r->Err_0.kind == ErrorKind::SizeOverflow,
    {
        writer.write_u16("method access flags", self.access_flags)?;
        writer.write_u16("method name", self.name)?;
        writer.write_u16("method descriptor", self.descriptor)?;
        write_attributes(&self.attributes, writer, "method attribute count")?;
        assert(writer.written() =~= old(writer).written() + self@.bytes());
        Ok(())
    }
}

impl Clone for MethodInfo {
    fn clone(&self) -> (r: Self)
        ensures
            r@ == self@,
    {
        MethodInfo {
            access_flags: self.access_flags,
            name: self.name,
            descriptor: self.descriptor,
            attributes: clone_attributes(&self.attributes),
        }
    }
}

} // verus!
