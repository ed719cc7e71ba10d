//! The whole class file: its fixed-order sections decoded into one record,
//! and encoded back byte for byte.
use vstd::prelude::*;
use crate::attribute_info::{
    AttributeModel, OriginAttribute, attributes_bytes, attributes_encodable,
    attributes_size, attrs_view, lemma_attributes_inverts, lemma_attributes_len,
    lemma_attributes_truncates, p_attributes, read_attributes, write_attributes,
    attributes_byte_size,
};
use crate::common::{ErrorKind, MessageError, Result};
use crate::constant_pool::{
    ConstantModel, ConstantPool, lemma_pool_inverts, lemma_pool_len, lemma_pool_truncates,
    p_pool, pool_bytes, pool_encodable, pool_size,
};
use crate::field_info::{
    FieldInfo, MemberModel, lemma_member_parser, member_bytes, member_parser, member_size, p_member,
};
use crate::method_info::MethodInfo;
use crate::support::data_reader::{DataReader, DataWriter, read_as};
use crate::wire::{
    PRes, be16, be32, inverts, p_counted, p_many, p_u16, p_u32, ser_counted, ser_many, sum_many,
    truncates,
};

verus! {

/// The four bytes every class file starts with.
pub const JCLASS_MAGIC: u32 = 0xCAFEBABE;

/// A class file as a mathematical value.
pub struct ClassModel {
    pub magic: u32,
    pub minor_version: u16,
    pub major_version: u16,
    pub constants: Seq<ConstantModel>,
    pub access_flags: u16,
    pub class_index: u16,
    pub superclass_index: u16,
    pub interfaces: Seq<u16>,
    pub fields: Seq<MemberModel>,
    pub methods: Seq<MemberModel>,
    pub attributes: Seq<AttributeModel>,
}

pub open spec fn index_parser() -> spec_fn(Seq<u8>, int) -> PRes<u16> {
    |d: Seq<u8>, p: int| p_u16(d, p)
}

pub open spec fn index_bytes() -> spec_fn(u16) -> Seq<u8> {
    |v: u16| be16(v)
}

/// Everything after the constant pool: flags, this and super class, then the
/// counted interfaces, fields, methods and attributes.
#[verifier::opaque]
pub open spec fn p_class_tail(
    d: Seq<u8>,
    p: int,
    magic: u32,
    minor_version: u16,
    major_version: u16,
    constants: Seq<ConstantModel>,
) -> PRes<ClassModel> {
    match p_u16(d, p) {
        Ok((access_flags, q1)) => match p_u16(d, q1) {
            Ok((class_index, q2)) => match p_u16(d, q2) {
                Ok((superclass_index, q3)) => match p_counted(d, q3, index_parser()) {
                    Ok((interfaces, q4)) => match p_counted(d, q4, member_parser()) {
                        Ok((fields, q5)) => match p_counted(d, q5, member_parser()) {
                            Ok((methods, q6)) => match p_attributes(d, q6) {
                                Ok((attributes, q7)) => Ok((
                                    ClassModel {
                                        magic,
                                        minor_version,
                                        major_version,
                                        constants,
                                        access_flags,
                                        class_index,
                                        superclass_index,
                                        interfaces,
                                        fields,
                                        methods,
                                        attributes,
                                    },
                                    q7,
                                )),
                                Err(e) => Err(e),
                            },
                            Err(e) => Err(e),
                        },
                        Err(e) => Err(e),
                    },
                    Err(e) => Err(e),
                },
                Err(e) => Err(e),
            },
            Err(e) => Err(e),
        },
        Err(e) => Err(e),
    }
}

/// A class file at `p`: the magic number (any other value fails at once),
/// the versions, the constant pool, then the rest in wire order.
pub open spec fn p_class(d: Seq<u8>, p: int) -> PRes<ClassModel> {
    match p_u32(d, p) {
        Ok((magic, q0)) => if magic != JCLASS_MAGIC {
            Err(ErrorKind::InvalidMagic)
        } else {
            match p_u16(d, q0) {
                Ok((minor, q1)) => match p_u16(d, q1) {
                    Ok((major, q2)) => match p_pool(d, q2) {
                        Ok((constants, q3)) => p_class_tail(d, q3, magic, minor, major, constants),
                        Err(e) => Err(e),
                    },
                    Err(e) => Err(e),
                },
                Err(e) => Err(e),
            }
        },
        Err(e) => Err(e),
    }
}

/// Decoding a whole buffer from its start.
pub open spec fn decode(d: Seq<u8>) -> core::result::Result<ClassModel, ErrorKind> {
    match p_class(d, 0) {
        Ok((m, _)) => Ok(m),
        Err(e) => Err(e),
    }
}

/// Where decoding a buffer that decodes stops.
pub open spec fn decoded_len(d: Seq<u8>) -> int {
    p_class(d, 0)->Ok_0.1
}

/// Counted members, all of which can be written.
pub open spec fn members_encodable(s: Seq<MemberModel>) -> bool {
    &&& s.len() <= 0xFFFF
    &&& forall|i: int| 0 <= i < s.len() ==> (#[trigger] s[i]).encodable()
}

impl ClassModel {
    /// The class file's encoding; the magic number is always the signature.
    pub open spec fn bytes(self) -> Seq<u8> {
        be32(JCLASS_MAGIC) + be16(self.minor_version) + be16(self.major_version) + pool_bytes(
            self.constants,
        ) + self.tail_bytes()
    }

    /// What follows the constant pool on the wire.
    pub open spec fn tail_bytes(self) -> Seq<u8> {
        be16(self.access_flags) + be16(self.class_index) + be16(self.superclass_index)
            + ser_counted(self.interfaces, index_bytes()) + ser_counted(self.fields, member_bytes())
            + ser_counted(self.methods, member_bytes()) + attributes_bytes(self.attributes)
    }

    /// Every count, length and constant fits its field.
    pub open spec fn encodable(self) -> bool {
        &&& pool_encodable(self.constants)
        &&& self.interfaces.len() <= 0xFFFF
        &&& members_encodable(self.fields)
        &&& members_encodable(self.methods)
        &&& attributes_encodable(self.attributes)
    }

    /// The size of the encoding: the 8-byte header, the pool, 6 bytes of
    /// flags and class indices, 2 bytes of count and 2 per interface, then the
    /// fields, methods and attributes, each list with its 2-byte count.
    pub open spec fn size(self) -> int {
        8 + pool_size(self.constants) + 6 + 2 + 2 * self.interfaces.len() + 2 + sum_many(
            self.fields,
            member_size(),
        ) + 2 + sum_many(self.methods, member_size()) + attributes_size(self.attributes)
    }
}

/// The fields of a list, as mathematical values.
pub open spec fn fields_view(v: Seq<FieldInfo>) -> Seq<MemberModel> {
    v.map_values(|f: FieldInfo| f@)
}

/// The methods of a list, as mathematical values.
pub open spec fn methods_view(v: Seq<MethodInfo>) -> Seq<MemberModel> {
    v.map_values(|m: MethodInfo| m@)
}

/// A decoded class file.
#[derive(Debug)]
pub struct JClassInfo {
    pub magic: u32,
    pub minor_version: u16,
    pub major_version: u16,
    pub constant_pool: ConstantPool,
    pub access_flags: u16,
    pub class_index: u16,
    pub superclass_index: u16,
    pub interfaces: Vec<u16>,
    pub fields: Vec<FieldInfo>,
    pub methods: Vec<MethodInfo>,
    pub attributes: Vec<OriginAttribute>,
}

impl View for JClassInfo {
    type V = ClassModel;

    open spec fn view(&self) -> ClassModel {
        ClassModel {
            magic: self.magic,
            minor_version: self.minor_version,
            major_version: self.major_version,
            constants: self.constant_pool@,
            access_flags: self.access_flags,
            class_index: self.class_index,
            superclass_index: self.superclass_index,
            interfaces: self.interfaces@,
            fields: fields_view(self.fields@),
            methods: methods_view(self.methods@),
            attributes: attrs_view(self.attributes@),
        }
    }
}

pub(crate) fn read_interfaces(reader: &mut DataReader) -> (r: Result<Vec<u16>>)
    ensures
        final(reader).input() == old(reader).input(),
        read_as(r, p_counted(old(reader).input(), old(reader).offset(), index_parser()), final(reader).offset()),
{
    let n = reader.read_u16("interface count")?;
    let ghost d = reader.input();
    let ghost start = reader.offset();
    let mut out: Vec<u16> = Vec::with_capacity(n as usize);
    let mut i: u16 = 0;
    while i < n
        invariant
            old(reader).input() == d,
            p_counted(d, old(reader).offset(), index_parser()) == p_many(d, start, n as nat, index_parser()),
            i <= n,
            reader.input() == d,
            out@.len() == i,
            p_many(d, start, i as nat, index_parser()) == Ok::<(Seq<u16>, int), ErrorKind>((out@, reader.offset())),
        decreases n - i,
    {
        let v = match reader.read_u16("interface index") {
            Ok(v) => v,
            Err(e) => {
                proof {
                    crate::wire::lemma_many_err(d, start, (i + 1) as nat, n as nat, index_parser());
                }
                return Err(e);
            },
        };
        out.push(v);
        i = i + 1;
    }
    Ok(out)
}

pub(crate) fn read_fields(reader: &mut DataReader) -> (r: Result<Vec<FieldInfo>>)
    ensures
        final(reader).input() == old(reader).input(),
        match p_counted(old(reader).input(), old(reader).offset(), member_parser()) {
            Ok((s, q)) => r is Ok && fields_view(r->Ok_0@) == s && final(reader).offset() == q,
            Err(e) => r is Err && r->Err_0.kind == e,
        },
{
    let n = reader.read_u16("field count")?;
    let ghost d = reader.input();
    let ghost start = reader.offset();
    let mut out: Vec<FieldInfo> = Vec::with_capacity(n as usize);
    assert(fields_view(out@) =~= Seq::<MemberModel>::empty());
    let mut i: u16 = 0;
    while i < n
        invariant
            old(reader).input() == d,
            p_counted(d, old(reader).offset(), member_parser()) == p_many(d, start, n as nat, member_parser()),
            i <= n,
            reader.input() == d,
            out@.len() == i,
            p_many(d, start, i as nat, member_parser()) == Ok::<(Seq<MemberModel>, int), ErrorKind>((fields_view(out@), reader.offset())),
        decreases n - i,
    {
        let f = match FieldInfo::new_from_reader(reader) {
            Ok(f) => f,
            Err(e) => {
                proof {
                    crate::wire::lemma_many_err(d, start, (i + 1) as nat, n as nat, member_parser());
                }
                return Err(e);
            },
        };
        let ghost prev = out@;
        out.push(f);
        assert(fields_view(out@) =~= fields_view(prev).push(f@));
        i = i + 1;
    }
    Ok(out)
}

pub(crate) fn read_methods(reader: &mut DataReader) -> (r: Result<Vec<MethodInfo>>)
    ensures
        final(reader).input() == old(reader).input(),
        match p_counted(old(reader).input(), old(reader).offset(), member_parser()) {
            Ok((s, q)) => r is Ok && methods_view(r->Ok_0@) == s && final(reader).offset() == q,
            Err(e) => r is Err && r->Err_0.kind == e,
        },
{
    let n = reader.read_u16("method count")?;
    let ghost d = reader.input();
    let ghost start = reader.offset();
    let mut out: Vec<MethodInfo> = Vec::with_capacity(n as usize);
    assert(methods_view(out@) =~= Seq::<MemberModel>::empty());
    let mut i: u16 = 0;
    while i < n
        invariant
            old(reader).input() == d,
            p_counted(d, old(reader).offset(), member_parser()) == p_many(d, start, n as nat, member_parser()),
            i <= n,
            reader.input() == d,
            out@.len() == i,
            p_many(d, start, i as nat, member_parser()) == Ok::<(Seq<MemberModel>, int), ErrorKind>((methods_view(out@), reader.offset())),
        decreases n - i,
    {
        let m = match MethodInfo::new_from_reader(reader) {
            Ok(m) => m,
            Err(e) => {
                proof {
                    crate::wire::lemma_many_err(d, start, (i + 1) as nat, n as nat, member_parser());
                }
                return Err(e);
            },
        };
        let ghost prev = out@;
        out.push(m);
        assert(methods_view(out@) =~= methods_view(prev).push(m@));
        i = i + 1;
    }
    Ok(out)
}


fn write_interfaces(v: &Vec<u16>, writer: &mut DataWriter) -> (r: Result<()>)
    ensures
        r is Ok <==> v@.len() <= 0xFFFF,
        r is Ok ==> final(writer).written() == old(writer).written() + ser_counted(v@, index_bytes()),
        r is Err ==> r->Err_0.kind == ErrorKind::SizeOverflow,
{
    if v.len() > 0xFFFF {
        return Err(MessageError::with_kind(ErrorKind::SizeOverflow, "interface count"));
    }
    writer.write_u16("interface count", v.len() as u16)?;
    let ghost mid = writer.written();
    let mut i: usize = 0;
    while i < v.len()
        invariant
            i <= v@.len(),
            v@.len() <= 0xFFFF,
            mid == old(writer).written() + be16(v@.len() as u16),
            writer.written() == mid + ser_many(v@.take(i as int), index_bytes()),
        decreases v@.len() - i,
    {
        writer.write_u16("interface index", v[i])?;
        proof {
            crate::wire::lemma_ser_step(v@, index_bytes(), i as int);
        }
        i = i + 1;
    }
    assert(v@.take(v@.len() as int) =~= v@);
    assert(writer.written() =~= old(writer).written() + ser_counted(v@, index_bytes()));
    Ok(())
}

fn write_fields(v: &Vec<FieldInfo>, writer: &mut DataWriter) -> (r: Result<()>)
    ensures
        r is Ok <==> members_encodable(fields_view(v@)),
        r is Ok ==> final(writer).written() == old(writer).written() + ser_counted(
            fields_view(v@),
            member_bytes(),
        ),
        r is Err ==> r->Err_0.kind == ErrorKind::SizeOverflow,
{
    let ghost s = fields_view(v@);
    if v.len() > 0xFFFF {
        return Err(MessageError::with_kind(ErrorKind::SizeOverflow, "field count"));
    }
    writer.write_u16("field count", v.len() as u16)?;
    let ghost mid = writer.written();
    let mut i: usize = 0;
    while i < v.len()
        invariant
            s == fields_view(v@),
            s.len() == v@.len(),
            v@.len() <= 0xFFFF,
            i <= v@.len(),
            mid == old(writer).written() + be16(v@.len() as u16),
            forall|j: int| 0 <= j < i ==> (#[trigger] s[j]).encodable(),
            writer.written() == mid + ser_many(s.take(i as int), member_bytes()),
        decreases v@.len() - i,
    {
        match v[i].write_to(writer) {
            Ok(()) => {},
            Err(e) => {
                assert(!s[i as int].encodable());
                return Err(e);
            },
        }
        proof {
            crate::wire::lemma_ser_step(s, member_bytes(), i as int);
        }
        i = i + 1;
    }
    assert(s.take(s.len() as int) =~= s);
    assert(writer.written() =~= old(writer).written() + ser_counted(s, member_bytes()));
    Ok(())
}

fn write_methods(v: &Vec<MethodInfo>, writer: &mut DataWriter) -> (r: Result<()>)
    ensures
        r is Ok <==> members_encodable(methods_view(v@)),
        r is Ok ==> final(writer).written() == old(writer).written() + ser_counted(
            methods_view(v@),
            member_bytes(),
        ),
        r is Err ==> r->Err_0.kind == ErrorKind::SizeOverflow,
{
    let ghost s = methods_view(v@);
    if v.len() > 0xFFFF {
        return Err(MessageError::with_kind(ErrorKind::SizeOverflow, "method count"));
    }
    writer.write_u16("method count", v.len() as u16)?;
    let ghost mid = writer.written();
    let mut i: usize = 0;
    while i < v.len()
        invariant
            s == methods_view(v@),
            s.len() == v@.len(),
            v@.len() <= 0xFFFF,
            i <= v@.len(),
            mid == old(writer).written() + be16(v@.len() as u16),
            forall|j: int| 0 <= j < i ==> (#[trigger] s[j]).encodable(),
            writer.written() == mid + ser_many(s.take(i as int), member_bytes()),
        decreases v@.len() - i,
    {
        match v[i].write_to(writer) {
            Ok(()) => {},
            Err(e) => {
                assert(!s[i as int].encodable());
                return Err(e);
            },
        }
        proof {
            crate::wire::lemma_ser_step(s, member_bytes(), i as int);
        }
        i = i + 1;
    }
    assert(s.take(s.len() as int) =~= s);
    assert(writer.written() =~= old(writer).written() + ser_counted(s, member_bytes()));
    Ok(())
}

fn members_byte_size(s: Ghost<Seq<MemberModel>>, sizes: &Vec<usize>) -> (r: usize)
    requires
        sizes@.len() == s@.len(),
        forall|i: int| 0 <= i < s@.len() ==> sizes@[i] == (#[trigger] s@[i]).size(),
        2 + sum_many(s@, member_size()) <= usize::MAX,
    ensures
        r == 2 + sum_many(s@, member_size()),
{
    proof {
        assert forall|m: MemberModel| #[trigger] member_size()(m) >= 0 by {
            lemma_attributes_len(m.attributes);
        }
    }
    let mut total: usize = 2;
    let mut i: usize = 0;
    while i < sizes.len()
        invariant
            sizes@.len() == s@.len(),
            forall|i: int| 0 <= i < s@.len() ==> sizes@[i] == (#[trigger] s@[i]).size(),
            2 + sum_many(s@, member_size()) <= usize::MAX,
            forall|m: MemberModel| #[trigger] member_size()(m) >= 0,
            i <= sizes@.len(),
            total == 2 + sum_many(s@.take(i as int), member_size()),
        decreases sizes@.len() - i,
    {
        proof {
            crate::wire::lemma_sum_step(s@, member_size(), i as int);
            crate::wire::lemma_sum_prefix(s@, member_size(), i + 1);
        }
        total = total + sizes[i];
        i = i + 1;
    }
    assert(s@.take(s@.len() as int) =~= s@);
    total
}

impl JClassInfo {
    /// The pool is well formed.
    pub open spec fn wf(&self) -> bool {
        self.constant_pool.wf()
    }

    /// Reads a class file from the reader's position, section by section in
    /// wire order; the first failure ends the read.
    pub fn from_reader(reader: &mut DataReader) -> (r: Result<JClassInfo>)
        ensures
            final(reader).input() == old(reader).input(),
            read_as(r, p_class(old(reader).input(), old(reader).offset()), final(reader).offset()),
            r is Ok ==> r->Ok_0.wf(),
            p_u32(old(reader).input(), old(reader).offset()) is Ok && p_u32(
                old(reader).input(),
                old(reader).offset(),
            )->Ok_0.0 != JCLASS_MAGIC ==> final(reader).offset() == old(reader).offset() + 4,
    {
        proof {
            reveal(p_class_tail);
        }
        let magic = reader.read_u32("magic")?;
        if magic != JCLASS_MAGIC {
            return Err(MessageError::with_kind(ErrorKind::InvalidMagic, "magic"));
        }
        let minor_version = reader.read_u16("minor version")?;
        let major_version = reader.read_u16("major version")?;
        let constant_pool = ConstantPool::new_with_reader(reader)?;
        let access_flags = reader.read_u16("access flags")?;
        let class_index = reader.read_u16("this class")?;
        let superclass_index = reader.read_u16("super class")?;
        let interfaces = read_interfaces(reader)?;
        let fields = read_fields(reader)?;
        let methods = read_methods(reader)?;
        let attributes = read_attributes(reader, "class attribute count")?;
        Ok(
            JClassInfo {
                magic,
                minor_version,
                major_version,
                constant_pool,
                access_flags,
                class_index,
                superclass_index,
                interfaces,
                fields,
                methods,
                attributes,
            },
        )
    }

    /// Decodes a class file held in a buffer, from its start.
    pub fn from_bytes(data: &[u8]) -> (r: Result<JClassInfo>)
        ensures
            match decode(data@) {
                Ok(m) => r is Ok && r->Ok_0@ == m,
                Err(e) => r is Err && r->Err_0.kind == e,
            },
            r is Ok ==> r->Ok_0.wf(),
    {
        let mut reader = DataReader::new(data);
        JClassInfo::from_reader(&mut reader)
    }

    /// Writes the class file in wire order; fails as an overflow when a count,
    /// length or text does not fit its field.
    pub fn write_to(&self, writer: &mut DataWriter) -> (r: Result<()>)
        requires
            self.wf(),
        ensures
            r is Ok <==> self@.encodable(),
            r is Ok ==> final(writer).written() == old(writer).written() + self@.bytes(),
            r is Err ==> r->Err_0.kind == ErrorKind::SizeOverflow,
    {
        writer.write_u32("magic", JCLASS_MAGIC)?;
        writer.write_u16("minor version", self.minor_version)?;
        writer.write_u16("major version", self.major_version)?;
        self.constant_pool.write_to(writer)?;
        writer.write_u16("access flags", self.access_flags)?;
        writer.write_u16("this class", self.class_index)?;
        writer.write_u16("super class", self.superclass_index)?;
        write_interfaces(&self.interfaces, writer)?;
        write_fields(&self.fields, writer)?;
        write_methods(&self.methods, writer)?;
        write_attributes(&self.attributes, writer, "class attribute count")?;
        assert(writer.written() =~= old(writer).written() + self@.bytes());
        Ok(())
    }

    /// The class file's bytes.
    pub fn to_bytes(&self) -> (r: Result<Vec<u8>>)
        requires
            self.wf(),
        ensures
            r is Ok <==> self@.encodable(),
            r is Ok ==> r->Ok_0@ == self@.bytes(),
            r is Err ==> r->Err_0.kind == ErrorKind::SizeOverflow,
    {
        let mut writer = DataWriter::new();
        self.write_to(&mut writer)?;
        assert(Seq::<u8>::empty() + self@.bytes() =~= self@.bytes());
        Ok(writer.into_bytes())
    }

    /// The number of bytes `to_bytes` gives, computed without encoding.
    pub fn byte_size(&self) -> (r: usize)
        requires
            self.wf(),
            self@.encodable(),
            self@.size() <= usize::MAX,
        ensures
            r == self@.size(),
    {
        let ghost m = self@;
        proof {
            lemma_pool_len(m.constants);
            lemma_attributes_len(m.attributes);
            assert forall|x: MemberModel| #[trigger] member_size()(x) >= 0 by {
                lemma_attributes_len(x.attributes);
            }
            crate::wire::lemma_sum_prefix(m.fields, member_size(), 0);
            crate::wire::lemma_sum_prefix(m.methods, member_size(), 0);
        }
        let pool = self.constant_pool.byte_size();
        let mut field_sizes: Vec<usize> = Vec::with_capacity(self.fields.len());
        let mut i: usize = 0;
        while i < self.fields.len()
            invariant
                m == self@,
                i <= self.fields@.len(),
                field_sizes@.len() == i,
                self@.size() <= usize::MAX,
                members_encodable(m.fields),
                sum_many(m.fields, member_size()) <= usize::MAX,
                forall|j: int| 0 <= j < i ==> field_sizes@[j] == (#[trigger] m.fields[j]).size(),
                forall|x: MemberModel| #[trigger] member_size()(x) >= 0,
            decreases self.fields@.len() - i,
        {
            proof {
                crate::wire::lemma_sum_prefix(m.fields, member_size(), i + 1);
                crate::wire::lemma_sum_step(m.fields, member_size(), i as int);
                crate::wire::lemma_sum_prefix(m.fields.take(i + 1), member_size(), i as int);
                lemma_attributes_len(m.fields[i as int].attributes);
                assert(m.fields[i as int] == self.fields@[i as int]@);
            }
            let sz = attributes_byte_size(&self.fields[i].attributes);
            field_sizes.push(6 + sz);
            i = i + 1;
        }
        let fields = members_byte_size(Ghost(m.fields), &field_sizes);
        let mut method_sizes: Vec<usize> = Vec::with_capacity(self.methods.len());
        let mut i: usize = 0;
        while i < self.methods.len()
            invariant
                m == self@,
                i <= self.methods@.len(),
                method_sizes@.len() == i,
                self@.size() <= usize::MAX,
                members_encodable(m.methods),
                sum_many(m.methods, member_size()) <= usize::MAX,
                forall|j: int| 0 <= j < i ==> method_sizes@[j] == (#[trigger] m.methods[j]).size(),
                forall|x: MemberModel| #[trigger] member_size()(x) >= 0,
            decreases self.methods@.len() - i,
        {
            proof {
                crate::wire::lemma_sum_prefix(m.methods, member_size(), i + 1);
                crate::wire::lemma_sum_step(m.methods, member_size(), i as int);
                crate::wire::lemma_sum_prefix(m.methods.take(i + 1), member_size(), i as int);
                lemma_attributes_len(m.methods[i as int].attributes);
                assert(m.methods[i as int] == self.methods@[i as int]@);
            }
            let sz = attributes_byte_size(&self.methods[i].attributes);
            method_sizes.push(6 + sz);
            i = i + 1;
        }
        let methods = members_byte_size(Ghost(m.methods), &method_sizes);
        let attrs = attributes_byte_size(&self.attributes);
        8 + pool + 6 + 2 + 2 * self.interfaces.len() + fields + methods + attrs
    }
}


/// Interface indices read are exactly their encodings, and a short input cuts
/// them off as truncated.
pub proof fn lemma_index_parser()
    ensures
        inverts(index_parser(), index_bytes()),
        truncates(index_parser()),
{
    assert forall|d: Seq<u8>, p: int| #[trigger] index_parser()(d, p) is Ok implies {
        let (x, q) = index_parser()(d, p)->Ok_0;
        &&& 0 <= p <= q <= d.len()
        &&& d.subrange(p, q) == index_bytes()(x)
    } by {
        crate::wire::lemma_be16_of(d[p], d[p + 1]);
        assert(d.subrange(p, p + 2) =~= seq![d[p], d[p + 1]]);
    }
    assert forall|d: Seq<u8>, p: int, k: int|
        index_parser()(d, p) is Ok && 0 <= k <= d.len() implies #[trigger] index_parser()(
        d.take(k),
        p,
    ) == if index_parser()(d, p)->Ok_0.1 <= k {
        index_parser()(d, p)
    } else {
        Err(ErrorKind::TruncatedInput)
    } by {
        crate::wire::lemma_take_reads(d, k);
    }
}

pub open spec fn member_encodable() -> spec_fn(MemberModel) -> bool {
    |m: MemberModel| m.encodable()
}

proof fn lemma_members_read(d: Seq<u8>, p: int)
    ensures
        p_counted(d, p, member_parser()) is Ok ==> {
            let (s, q) = p_counted(d, p, member_parser())->Ok_0;
            &&& 0 <= p <= q <= d.len()
            &&& members_encodable(s)
            &&& d.subrange(p, q) == ser_counted(s, member_bytes())
        },
{
    lemma_member_parser();
    crate::wire::lemma_counted_inverts(d, p, member_parser(), member_bytes());
    if p_counted(d, p, member_parser()) is Ok {
        let (n, q0) = p_u16(d, p)->Ok_0;
        assert forall|d: Seq<u8>, p: int| #[trigger] member_parser()(d, p) is Ok implies member_encodable()(
            member_parser()(d, p)->Ok_0.0,
        ) by {
            assert(p_member(d, p) is Ok);
        }
        crate::wire::lemma_many_all(d, q0, n as nat, member_parser(), member_encodable());
        let s = p_counted(d, p, member_parser())->Ok_0.0;
        assert forall|i: int| 0 <= i < s.len() implies (#[trigger] s[i]).encodable() by {
            assert(member_encodable()(s[i]));
        }
    }
}

/// Round trip: when a buffer decodes (with a non-zero constant-pool count,
/// the only count that cannot be written back as read), what it decodes to
/// can be encoded, and its encoding is exactly the bytes decoding read. So a
/// valid class file, one that decoding reads to its end, is encoded back to
/// itself byte for byte.
pub proof fn lemma_decode_encode(d: Seq<u8>)
    requires
        decode(d) is Ok,
        crate::wire::u16_of(d[8], d[9]) != 0,
    ensures
        decode(d)->Ok_0.encodable(),
        decode(d)->Ok_0.bytes() == d.take(decoded_len(d)),
        decoded_len(d) == d.len() ==> decode(d)->Ok_0.bytes() == d,
{
    let (magic, q0) = p_u32(d, 0)->Ok_0;
    let (minor, q1) = p_u16(d, 4)->Ok_0;
    let (major, q2) = p_u16(d, 6)->Ok_0;
    let (cs, q3) = p_pool(d, 8)->Ok_0;
    assert(p_class(d, 0) == p_class_tail(d, q3, magic, minor, major, cs));
    let m = decode(d)->Ok_0;
    let q7 = decoded_len(d);
    lemma_pool_inverts(d, 8);
    lemma_tail_inverts(d, q3, magic, minor, major, cs);
    assert(m.constants == cs && m.minor_version == minor && m.major_version == major);
    crate::wire::lemma_be32_of(d.subrange(0, 4));
    crate::wire::lemma_be16_of(d[4], d[5]);
    crate::wire::lemma_be16_of(d[6], d[7]);
    assert(d.subrange(4, 6) =~= seq![d[4], d[5]]);
    assert(d.subrange(6, 8) =~= seq![d[6], d[7]]);
    lemma_split(d, 0, 4, 6);
    lemma_split(d, 0, 6, 8);
    lemma_split(d, 0, 8, q3);
    lemma_split(d, 0, q3, q7);
    assert(d.take(q7) == d.subrange(0, q7));
    if q7 == d.len() {
        assert(d.take(q7) =~= d);
    }
}

proof fn lemma_tail_inverts(
    d: Seq<u8>,
    p: int,
    magic: u32,
    minor_version: u16,
    major_version: u16,
    constants: Seq<ConstantModel>,
)
    requires
        p_class_tail(d, p, magic, minor_version, major_version, constants) is Ok,
    ensures
        ({
            let (m, q) = p_class_tail(d, p, magic, minor_version, major_version, constants)->Ok_0;
            &&& 0 <= p <= q <= d.len()
            &&& m.magic == magic
            &&& m.minor_version == minor_version
            &&& m.major_version == major_version
            &&& m.constants == constants
            &&& m.interfaces.len() <= 0xFFFF
            &&& members_encodable(m.fields)
            &&& members_encodable(m.methods)
            &&& attributes_encodable(m.attributes)
            &&& d.subrange(p, q) == m.tail_bytes()
        }),
{
    reveal(p_class_tail);
    let (m, q7) = p_class_tail(d, p, magic, minor_version, major_version, constants)->Ok_0;
    let (af, q1) = p_u16(d, p)->Ok_0;
    let (ci, q2) = p_u16(d, q1)->Ok_0;
    let (sc, q3) = p_u16(d, q2)->Ok_0;
    let (ifs, q4) = p_counted(d, q3, index_parser())->Ok_0;
    let (fs, q5) = p_counted(d, q4, member_parser())->Ok_0;
    let (ms, q6) = p_counted(d, q5, member_parser())->Ok_0;
    let (ats, q8) = p_attributes(d, q6)->Ok_0;
    assert(q8 == q7);
    assert(m.access_flags == af && m.class_index == ci && m.superclass_index == sc);
    assert(m.interfaces == ifs && m.fields == fs && m.methods == ms && m.attributes == ats);
    lemma_index_parser();
    crate::wire::lemma_counted_inverts(d, q3, index_parser(), index_bytes());
    lemma_members_read(d, q4);
    lemma_members_read(d, q5);
    lemma_attributes_inverts(d, q6);
    crate::wire::lemma_be16_of(d[p], d[p + 1]);
    crate::wire::lemma_be16_of(d[p + 2], d[p + 3]);
    crate::wire::lemma_be16_of(d[p + 4], d[p + 5]);
    assert(d.subrange(p, p + 2) =~= seq![d[p], d[p + 1]]);
    assert(d.subrange(p + 2, p + 4) =~= seq![d[p + 2], d[p + 3]]);
    assert(d.subrange(p + 4, p + 6) =~= seq![d[p + 4], d[p + 5]]);
    lemma_split(d, p, p + 2, p + 4);
    lemma_split(d, p, p + 4, p + 6);
    lemma_split(d, p, p + 6, q4);
    lemma_split(d, p, q4, q5);
    lemma_split(d, p, q5, q6);
    lemma_split(d, p, q6, q7);
}

proof fn lemma_split(d: Seq<u8>, a: int, b: int, c: int)
    requires
        0 <= a <= b <= c <= d.len(),
    ensures
        d.subrange(a, c) == d.subrange(a, b) + d.subrange(b, c),
{
    assert(d.subrange(a, c) =~= d.subrange(a, b) + d.subrange(b, c));
}

/// Truncation: cutting a buffer that decodes anywhere before the point where
/// decoding stops makes decoding fail as truncated.
pub proof fn lemma_truncated_fails(d: Seq<u8>, k: int)
    requires
        decode(d) is Ok,
        0 <= k < decoded_len(d),
    ensures
        decode(d.take(k)) == Err::<ClassModel, ErrorKind>(ErrorKind::TruncatedInput),
{
    reveal(p_class_tail);
    crate::wire::lemma_take_reads(d, k);
    lemma_pool_inverts(d, 8);
    lemma_pool_truncates(d, 8, k);
    let (_, q3) = p_pool(d, 8)->Ok_0;
    lemma_index_parser();
    lemma_member_parser();
    crate::wire::lemma_counted_inverts(d, q3 + 6, index_parser(), index_bytes());
    crate::wire::lemma_counted_truncates(d, q3 + 6, k, index_parser(), index_bytes());
    let (_, q4) = p_counted(d, q3 + 6, index_parser())->Ok_0;
    crate::wire::lemma_counted_inverts(d, q4, member_parser(), member_bytes());
    crate::wire::lemma_counted_truncates(d, q4, k, member_parser(), member_bytes());
    let (_, q5) = p_counted(d, q4, member_parser())->Ok_0;
    crate::wire::lemma_counted_inverts(d, q5, member_parser(), member_bytes());
    crate::wire::lemma_counted_truncates(d, q5, k, member_parser(), member_bytes());
    let (_, q6) = p_counted(d, q5, member_parser())->Ok_0;
    lemma_attributes_inverts(d, q6);
    lemma_attributes_truncates(d, q6, k);
}

/// Size: the encoding of any class file is as long as its size says.
pub proof fn lemma_class_size(m: ClassModel)
    ensures
        m.bytes().len() == m.size(),
{
    lemma_pool_len(m.constants);
    lemma_attributes_len(m.attributes);
    assert forall|v: u16| #[trigger] index_bytes()(v).len() == 2 by {}
    lemma_indices_len(m.interfaces);
    assert forall|x: MemberModel| #[trigger] member_bytes()(x).len() == member_size()(x) by {
        lemma_attributes_len(x.attributes);
    }
    crate::wire::lemma_ser_len(m.fields, member_bytes(), member_size());
    crate::wire::lemma_ser_len(m.methods, member_bytes(), member_size());
}

proof fn lemma_indices_len(s: Seq<u16>)
    ensures
        ser_many(s, index_bytes()).len() == 2 * s.len(),
    decreases s.len(),
{
    if s.len() > 0 {
        lemma_indices_len(s.drop_last());
    }
}

} // verus!
