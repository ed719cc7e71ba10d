//! The constant pool: the tagged constants every other part of a class file
//! refers to by 1-based index, how each is read and written, and the pool
//! itself with lookup and (deduplicating) insertion.
use vstd::prelude::*;
use vstd::utf8::{decode_utf8, encode_utf8, valid_utf8};
use crate::common::{ErrorKind, MessageError, Result};
use crate::support::data_reader::{DataReader, DataWriter, p_i32, p_i64, p_prefixed, read_as};
use crate::wire::{
    PRes, be16, be32, be64, inverts, p_many, p_u16, p_u32, p_u64, p_u8, ser_many, truncates,
};

verus! {

pub const CONSTANT_UTF8: u8 = 1;

pub const CONSTANT_INTEGER: u8 = 3;

pub const CONSTANT_FLOAT: u8 = 4;

pub const CONSTANT_LONG: u8 = 5;

pub const CONSTANT_DOUBLE: u8 = 6;

pub const CONSTANT_CLASS: u8 = 7;

pub const CONSTANT_STRING: u8 = 8;

pub const CONSTANT_FIELDREF: u8 = 9;

pub const CONSTANT_METHODREF: u8 = 10;

pub const CONSTANT_INTERFACE_METHODREF: u8 = 11;

pub const CONSTANT_NAME_AND_TYPE: u8 = 12;

pub const CONSTANT_METHOD_HANDLE: u8 = 15;

pub const CONSTANT_METHOD_TYPE: u8 = 16;

pub const CONSTANT_DYNAMIC: u8 = 17;

pub const CONSTANT_INVOKE_DYNAMIC: u8 = 18;

pub const CONSTANT_MODULE: u8 = 19;

pub const CONSTANT_PACKAGE: u8 = 20;

/// The most constants a pool can hold: its count plus one must fit a `u16`.
pub const MAX_CONSTANTS: u16 = 0xFFFE;

/// The shape of what follows a constant's tag byte.
#[derive(Clone, Copy, Debug, PartialEq, Eq, Structural)]
pub enum ConstantShape {
    /// One pool index.
    OneIndex,
    /// Two pool indices.
    TwoIndices,
    /// A reference-kind byte, then a pool index.
    KindAndIndex,
    /// Four bytes of number.
    Four,
    /// Eight bytes of number.
    Eight,
    /// A `u16` length, then that many bytes of UTF-8 text.
    Text,
}

/// The one table from tag byte to payload shape, shared by the decoder, the
/// encoder and the fast scanner.
pub open spec fn shape_of(tag: u8) -> Option<ConstantShape> {
    if tag == CONSTANT_CLASS || tag == CONSTANT_STRING || tag == CONSTANT_METHOD_TYPE || tag
        == CONSTANT_MODULE || tag == CONSTANT_PACKAGE {
        Some(ConstantShape::OneIndex)
    } else if tag == CONSTANT_FIELDREF || tag == CONSTANT_METHODREF || tag
        == CONSTANT_INTERFACE_METHODREF || tag == CONSTANT_NAME_AND_TYPE || tag == CONSTANT_DYNAMIC
        || tag == CONSTANT_INVOKE_DYNAMIC {
        Some(ConstantShape::TwoIndices)
    } else if tag == CONSTANT_METHOD_HANDLE {
        Some(ConstantShape::KindAndIndex)
    } else if tag == CONSTANT_INTEGER || tag == CONSTANT_FLOAT {
        Some(ConstantShape::Four)
    } else if tag == CONSTANT_LONG || tag == CONSTANT_DOUBLE {
        Some(ConstantShape::Eight)
    } else if tag == CONSTANT_UTF8 {
        Some(ConstantShape::Text)
    } else {
        None
    }
}

/// The payload shape that follows `tag`, or `None` for a tag of no known shape.
pub fn constant_shape(tag: u8) -> (r: Option<ConstantShape>)
    ensures
        r == shape_of(tag),
{
    match tag {
        CONSTANT_CLASS | CONSTANT_STRING | CONSTANT_METHOD_TYPE | CONSTANT_MODULE
        | CONSTANT_PACKAGE => Some(ConstantShape::OneIndex),
        CONSTANT_FIELDREF | CONSTANT_METHODREF | CONSTANT_INTERFACE_METHODREF
        | CONSTANT_NAME_AND_TYPE | CONSTANT_DYNAMIC | CONSTANT_INVOKE_DYNAMIC => Some(
            ConstantShape::TwoIndices,
        ),
        CONSTANT_METHOD_HANDLE => Some(ConstantShape::KindAndIndex),
        CONSTANT_INTEGER | CONSTANT_FLOAT => Some(ConstantShape::Four),
        CONSTANT_LONG | CONSTANT_DOUBLE => Some(ConstantShape::Eight),
        CONSTANT_UTF8 => Some(ConstantShape::Text),
        _ => None,
    }
}

/// A class index and a name-and-type index, as a member reference holds them.
#[derive(Clone, Copy, Debug, PartialEq, Eq, Structural)]
pub struct RefInfo {
    pub class_index: u16,
    pub name_type_index: u16,
}

impl RefInfo {
    pub fn new(class_index: u16, name_type_index: u16) -> (r: RefInfo)
        ensures
            r.class_index == class_index,
            r.name_type_index == name_type_index,
    {
        RefInfo { class_index, name_type_index }
    }

    /// Two big-endian `u16`s: the class index, then the name-and-type index.
    pub fn new_with_reader(reader: &mut DataReader) -> (r: Result<RefInfo>)
        ensures
            final(reader).input() == old(reader).input(),
            match p_two(old(reader).input(), old(reader).offset()) {
                Ok((v, q)) => r is Ok && r->Ok_0.class_index == v.0 && r->Ok_0.name_type_index
                    == v.1 && final(reader).offset() == q,
                Err(e) => r is Err && r->Err_0.kind == e,
            },
    {
        let class_index = reader.read_u16("ref: class index")?;
        let name_type_index = reader.read_u16("ref: name and type index")?;
        Ok(RefInfo::new(class_index, name_type_index))
    }
}

/// A constant-pool entry. Floating-point constants are held as their IEEE-754
/// bits, so that equal entries are equal bit for bit.
#[derive(Debug, Eq, Hash)]
pub enum ConstantValue {
    Null,
    ConstantClass(u16),
    ConstantFieldref(u16, u16),
    ConstantMethodref(u16, u16),
    ConstantInterfaceMethodref(u16, u16),
    ConstantString(u16),
    ConstantInteger(i32),
    ConstantFloat(u32),
    ConstantLong(i64),
    ConstantDouble(u64),
    ConstantNameAndType(u16, u16),
    ConstantUtf8(String),
    ConstantMethodHandle(u8, u16),
    ConstantMethodType(u16),
    ConstantDynamic(u16, u16),
    ConstantInvokeDynamic(u16, u16),
    ConstantModule(u16),
    ConstantPackage(u16),
}

/// A constant as a mathematical value: text as its characters.
pub enum ConstantModel {
    Null,
    Class(u16),
    Fieldref(u16, u16),
    Methodref(u16, u16),
    InterfaceMethodref(u16, u16),
    String(u16),
    Integer(i32),
    Float(u32),
    Long(i64),
    Double(u64),
    NameAndType(u16, u16),
    Utf8(Seq<char>),
    MethodHandle(u8, u16),
    MethodType(u16),
    Dynamic(u16, u16),
    InvokeDynamic(u16, u16),
    Module(u16),
    Package(u16),
}

impl View for ConstantValue {
    type V = ConstantModel;

    open spec fn view(&self) -> ConstantModel {
        match self {
            ConstantValue::Null => ConstantModel::Null,
            ConstantValue::ConstantClass(a) => ConstantModel::Class(*a),
            ConstantValue::ConstantFieldref(a, b) => ConstantModel::Fieldref(*a, *b),
            ConstantValue::ConstantMethodref(a, b) => ConstantModel::Methodref(*a, *b),
            ConstantValue::ConstantInterfaceMethodref(a, b) => ConstantModel::InterfaceMethodref(
                *a,
                *b,
            ),
            ConstantValue::ConstantString(a) => ConstantModel::String(*a),
            ConstantValue::ConstantInteger(v) => ConstantModel::Integer(*v),
            ConstantValue::ConstantFloat(v) => ConstantModel::Float(*v),
            ConstantValue::ConstantLong(v) => ConstantModel::Long(*v),
            ConstantValue::ConstantDouble(v) => ConstantModel::Double(*v),
            ConstantValue::ConstantNameAndType(a, b) => ConstantModel::NameAndType(*a, *b),
            ConstantValue::ConstantUtf8(s) => ConstantModel::Utf8(s@),
            ConstantValue::ConstantMethodHandle(k, a) => ConstantModel::MethodHandle(*k, *a),
            ConstantValue::ConstantMethodType(a) => ConstantModel::MethodType(*a),
            ConstantValue::ConstantDynamic(a, b) => ConstantModel::Dynamic(*a, *b),
            ConstantValue::ConstantInvokeDynamic(a, b) => ConstantModel::InvokeDynamic(*a, *b),
            ConstantValue::ConstantModule(a) => ConstantModel::Module(*a),
            ConstantValue::ConstantPackage(a) => ConstantModel::Package(*a),
        }
    }
}

impl ConstantModel {
    /// The tag byte that introduces this constant on the wire.
    pub open spec fn tag(self) -> u8 {
        match self {
            ConstantModel::Null => 0,
            ConstantModel::Class(_) => CONSTANT_CLASS,
            ConstantModel::Fieldref(_, _) => CONSTANT_FIELDREF,
            ConstantModel::Methodref(_, _) => CONSTANT_METHODREF,
            ConstantModel::InterfaceMethodref(_, _) => CONSTANT_INTERFACE_METHODREF,
            ConstantModel::String(_) => CONSTANT_STRING,
            ConstantModel::Integer(_) => CONSTANT_INTEGER,
            ConstantModel::Float(_) => CONSTANT_FLOAT,
            ConstantModel::Long(_) => CONSTANT_LONG,
            ConstantModel::Double(_) => CONSTANT_DOUBLE,
            ConstantModel::NameAndType(_, _) => CONSTANT_NAME_AND_TYPE,
            ConstantModel::Utf8(_) => CONSTANT_UTF8,
            ConstantModel::MethodHandle(_, _) => CONSTANT_METHOD_HANDLE,
            ConstantModel::MethodType(_) => CONSTANT_METHOD_TYPE,
            ConstantModel::Dynamic(_, _) => CONSTANT_DYNAMIC,
            ConstantModel::InvokeDynamic(_, _) => CONSTANT_INVOKE_DYNAMIC,
            ConstantModel::Module(_) => CONSTANT_MODULE,
            ConstantModel::Package(_) => CONSTANT_PACKAGE,
        }
    }

    /// What follows the tag byte on the wire.
    pub open spec fn payload(self) -> Seq<u8> {
        match self {
            ConstantModel::Null => Seq::empty(),
            ConstantModel::Class(a) => be16(a),
            ConstantModel::Fieldref(a, b) => be16(a) + be16(b),
            ConstantModel::Methodref(a, b) => be16(a) + be16(b),
            ConstantModel::InterfaceMethodref(a, b) => be16(a) + be16(b),
            ConstantModel::String(a) => be16(a),
            ConstantModel::Integer(v) => be32(v as u32),
            ConstantModel::Float(v) => be32(v),
            ConstantModel::Long(v) => be64(v as u64),
            ConstantModel::Double(v) => be64(v),
            ConstantModel::NameAndType(a, b) => be16(a) + be16(b),
            ConstantModel::Utf8(s) => be16(encode_utf8(s).len() as u16) + encode_utf8(s),
            ConstantModel::MethodHandle(k, a) => seq![k] + be16(a),
            ConstantModel::MethodType(a) => be16(a),
            ConstantModel::Dynamic(a, b) => be16(a) + be16(b),
            ConstantModel::InvokeDynamic(a, b) => be16(a) + be16(b),
            ConstantModel::Module(a) => be16(a),
            ConstantModel::Package(a) => be16(a),
        }
    }

    /// The constant on the wire: its tag byte, then its payload.
    pub open spec fn bytes(self) -> Seq<u8> {
        seq![self.tag()] + self.payload()
    }

    /// The constant can be written: its text, if any, fits a `u16` length.
    pub open spec fn encodable(self) -> bool {
        match self {
            ConstantModel::Null => false,
            ConstantModel::Utf8(s) => encode_utf8(s).len() <= 0xFFFF,
            _ => true,
        }
    }

    /// The pool indices this constant refers to.
    pub open spec fn refs(self) -> Seq<u16> {
        match self {
            ConstantModel::Class(a) => seq![a],
            ConstantModel::Fieldref(a, b) => seq![a, b],
            ConstantModel::Methodref(a, b) => seq![a, b],
            ConstantModel::InterfaceMethodref(a, b) => seq![a, b],
            ConstantModel::String(a) => seq![a],
            ConstantModel::NameAndType(a, b) => seq![a, b],
            ConstantModel::MethodHandle(_, a) => seq![a],
            ConstantModel::Dynamic(_, b) => seq![b],
            ConstantModel::InvokeDynamic(_, b) => seq![b],
            ConstantModel::MethodType(a) => seq![a],
            ConstantModel::Module(a) => seq![a],
            ConstantModel::Package(a) => seq![a],
            _ => Seq::empty(),
        }
    }
}

/// Two big-endian `u16`s.
pub open spec fn p_two(d: Seq<u8>, p: int) -> PRes<(u16, u16)> {
    match p_u16(d, p) {
        Ok((a, q)) => match p_u16(d, q) {
            Ok((b, r)) => Ok(((a, b), r)),
            Err(e) => Err(e),
        },
        Err(e) => Err(e),
    }
}

/// The payload of a constant with tag `tag`, at `p`.
pub open spec fn p_payload(d: Seq<u8>, p: int, tag: u8) -> PRes<ConstantModel> {
    match shape_of(tag) {
        None => Err(ErrorKind::UnknownConstantTag(tag)),
        Some(ConstantShape::OneIndex) => match p_u16(d, p) {
            Ok((a, q)) => Ok((
                if tag == CONSTANT_CLASS {
                    ConstantModel::Class(a)
                } else if tag == CONSTANT_STRING {
                    ConstantModel::String(a)
                } else if tag == CONSTANT_METHOD_TYPE {
                    ConstantModel::MethodType(a)
                } else if tag == CONSTANT_MODULE {
                    ConstantModel::Module(a)
                } else {
                    ConstantModel::Package(a)
                },
                q,
            )),
            Err(e) => Err(e),
        },
        Some(ConstantShape::TwoIndices) => match p_two(d, p) {
            Ok(((a, b), q)) => Ok((
                if tag == CONSTANT_FIELDREF {
                    ConstantModel::Fieldref(a, b)
                } else if tag == CONSTANT_METHODREF {
                    ConstantModel::Methodref(a, b)
                } else if tag == CONSTANT_INTERFACE_METHODREF {
                    ConstantModel::InterfaceMethodref(a, b)
                } else if tag == CONSTANT_NAME_AND_TYPE {
                    ConstantModel::NameAndType(a, b)
                } else if tag == CONSTANT_DYNAMIC {
                    ConstantModel::Dynamic(a, b)
                } else {
                    ConstantModel::InvokeDynamic(a, b)
                },
                q,
            )),
            Err(e) => Err(e),
        },
        Some(ConstantShape::KindAndIndex) => match p_u8(d, p) {
            Ok((k, q)) => match p_u16(d, q) {
                Ok((a, r)) => Ok((ConstantModel::MethodHandle(k, a), r)),
                Err(e) => Err(e),
            },
            Err(e) => Err(e),
        },
        Some(ConstantShape::Four) => if tag == CONSTANT_INTEGER {
            match p_i32(d, p) {
                Ok((v, q)) => Ok((ConstantModel::Integer(v), q)),
                Err(e) => Err(e),
            }
        } else {
            match p_u32(d, p) {
                Ok((v, q)) => Ok((ConstantModel::Float(v), q)),
                Err(e) => Err(e),
            }
        },
        Some(ConstantShape::Eight) => if tag == CONSTANT_LONG {
            match p_i64(d, p) {
                Ok((v, q)) => Ok((ConstantModel::Long(v), q)),
                Err(e) => Err(e),
            }
        } else {
            match p_u64(d, p) {
                Ok((v, q)) => Ok((ConstantModel::Double(v), q)),
                Err(e) => Err(e),
            }
        },
        Some(ConstantShape::Text) => match p_prefixed(d, p) {
            Ok((b, q)) => if valid_utf8(b) {
                Ok((ConstantModel::Utf8(decode_utf8(b)), q))
            } else {
                Err(ErrorKind::InvalidEncoding)
            },
            Err(e) => Err(e),
        },
    }
}

/// One constant at `p`: a tag byte, then the payload its shape calls for.
pub open spec fn p_constant(d: Seq<u8>, p: int) -> PRes<ConstantModel> {
    match p_u8(d, p) {
        Ok((tag, q)) => p_payload(d, q, tag),
        Err(e) => Err(e),
    }
}

/// `p_constant` as a value, for counted runs.
pub open spec fn constant_parser() -> spec_fn(Seq<u8>, int) -> PRes<ConstantModel> {
    |d: Seq<u8>, p: int| p_constant(d, p)
}

/// `ConstantModel::bytes` as a value, for counted runs.
pub open spec fn constant_bytes() -> spec_fn(ConstantModel) -> Seq<u8> {
    |c: ConstantModel| c.bytes()
}

/// Relies on `String::from_utf8`: it succeeds exactly on valid UTF-8, with
/// the text the bytes encode.
#[verifier::external_body]
fn string_from_utf8(bytes: Vec<u8>) -> (r: Option<String>)
    ensures
        r is Some <==> valid_utf8(bytes@),
        r is Some ==> r->0@ == decode_utf8(bytes@),
{
    String::from_utf8(bytes).ok()
}


/// Reading a constant leaves a value that can be written back, and the bytes
/// read are exactly its encoding.
pub proof fn lemma_constant_inverts(d: Seq<u8>, p: int)
    ensures
        p_constant(d, p) is Ok ==> {
            let (c, q) = p_constant(d, p)->Ok_0;
            &&& 0 <= p <= q <= d.len()
            &&& c.encodable()
            &&& d.subrange(p, q) == c.bytes()
        },
{
    if p_constant(d, p) is Ok {
        let (c, q) = p_constant(d, p)->Ok_0;
        let tag = d[p];
        let s = d.subrange(p, q);
        crate::wire::lemma_be16_of(d[p + 1], d[p + 2]);
        match shape_of(tag) {
            Some(ConstantShape::OneIndex) => {
                assert(s =~= c.bytes());
            },
            Some(ConstantShape::TwoIndices) => {
                crate::wire::lemma_be16_of(d[p + 3], d[p + 4]);
                assert(s =~= c.bytes());
            },
            Some(ConstantShape::KindAndIndex) => {
                crate::wire::lemma_be16_of(d[p + 2], d[p + 3]);
                assert(s =~= c.bytes());
            },
            Some(ConstantShape::Four) => {
                let w = d.subrange(p + 1, p + 5);
                crate::wire::lemma_be32_of(w);
                let u = crate::wire::u32_of(w);
                assert(((u as i32) as u32) == u) by (bit_vector);
                assert(s =~= c.bytes());
            },
            Some(ConstantShape::Eight) => {
                let w = d.subrange(p + 1, p + 9);
                crate::wire::lemma_be64_of(w);
                let u = crate::wire::u64_of(w);
                assert(((u as i64) as u64) == u) by (bit_vector);
                assert(s =~= c.bytes());
            },
            Some(ConstantShape::Text) => {
                let (n, q1) = p_u16(d, p + 1)->Ok_0;
                let b = d.subrange(p + 3, q);
                vstd::utf8::decode_utf8_encode_utf8(b);
                assert(s =~= c.bytes());
            },
            None => {},
        }
    }
}

/// Reading a constant from a prefix of the input: as before when the prefix
/// holds all of it, truncated otherwise.
pub proof fn lemma_constant_truncates(d: Seq<u8>, p: int, k: int)
    requires
        p_constant(d, p) is Ok,
        0 <= k <= d.len(),
    ensures
        p_constant(d.take(k), p) == if p_constant(d, p)->Ok_0.1 <= k {
            p_constant(d, p)
        } else {
            Err(ErrorKind::TruncatedInput)
        },
{
    crate::wire::lemma_take_reads(d, k);
    lemma_constant_inverts(d, p);
}

/// Constants read one after another are exactly their encodings, and a
/// shortened input cuts them off as truncated.
pub proof fn lemma_constant_parser()
    ensures
        inverts(constant_parser(), constant_bytes()),
        truncates(constant_parser()),
{
    assert forall|d: Seq<u8>, p: int| #[trigger] constant_parser()(d, p) is Ok implies {
        let (x, q) = constant_parser()(d, p)->Ok_0;
        &&& 0 <= p <= q <= d.len()
        &&& d.subrange(p, q) == constant_bytes()(x)
    } by {
        lemma_constant_inverts(d, p);
    }
    assert forall|d: Seq<u8>, p: int, k: int|
        constant_parser()(d, p) is Ok && 0 <= k <= d.len() implies #[trigger] constant_parser()(
        d.take(k),
        p,
    ) == if constant_parser()(d, p)->Ok_0.1 <= k {
        constant_parser()(d, p)
    } else {
        Err(ErrorKind::TruncatedInput)
    } by {
        lemma_constant_truncates(d, p, k);
    }
}

impl ConstantValue {
    /// A tag byte, then the payload its shape calls for.
    pub fn new_with_reader(reader: &mut DataReader) -> (r: Result<ConstantValue>)
        ensures
            final(reader).input() == old(reader).input(),
            read_as(r, p_constant(old(reader).input(), old(reader).offset()), final(reader).offset()),
    {
        let tag = reader.read_u8("constant tag")?;
        match constant_shape(tag) {
            None => Err(MessageError::with_kind(ErrorKind::UnknownConstantTag(tag), "constant tag")),
            Some(ConstantShape::OneIndex) => {
                let a = reader.read_u16("constant index")?;
                Ok(
                    if tag == CONSTANT_CLASS {
                        ConstantValue::ConstantClass(a)
                    } else if tag == CONSTANT_STRING {
                        ConstantValue::ConstantString(a)
                    } else if tag == CONSTANT_METHOD_TYPE {
                        ConstantValue::ConstantMethodType(a)
                    } else if tag == CONSTANT_MODULE {
                        ConstantValue::ConstantModule(a)
                    } else {
                        ConstantValue::ConstantPackage(a)
                    },
                )
            },
            Some(ConstantShape::TwoIndices) => {
                let a = reader.read_u16("constant first index")?;
                let b = reader.read_u16("constant second index")?;
                Ok(
                    if tag == CONSTANT_FIELDREF {
                        ConstantValue::ConstantFieldref(a, b)
                    } else if tag == CONSTANT_METHODREF {
                        ConstantValue::ConstantMethodref(a, b)
                    } else if tag == CONSTANT_INTERFACE_METHODREF {
                        ConstantValue::ConstantInterfaceMethodref(a, b)
                    } else if tag == CONSTANT_NAME_AND_TYPE {
                        ConstantValue::ConstantNameAndType(a, b)
                    } else if tag == CONSTANT_DYNAMIC {
                        ConstantValue::ConstantDynamic(a, b)
                    } else {
                        ConstantValue::ConstantInvokeDynamic(a, b)
                    },
                )
            },
            Some(ConstantShape::KindAndIndex) => {
                let k = reader.read_u8("method handle kind")?;
                let a = reader.read_u16("method handle reference")?;
                Ok(ConstantValue::ConstantMethodHandle(k, a))
            },
            Some(ConstantShape::Four) => {
                if tag == CONSTANT_INTEGER {
                    let v = reader.read_i32("integer constant")?;
                    Ok(ConstantValue::ConstantInteger(v))
                } else {
                    let v = reader.read_u32("float constant")?;
                    Ok(ConstantValue::ConstantFloat(v))
                }
            },
            Some(ConstantShape::Eight) => {
                if tag == CONSTANT_LONG {
                    let v = reader.read_i64("long constant")?;
                    Ok(ConstantValue::ConstantLong(v))
                } else {
                    let v = reader.read_u64("double constant")?;
                    Ok(ConstantValue::ConstantDouble(v))
                }
            },
            Some(ConstantShape::Text) => {
                let bytes = reader.read_bytes_with_pre_size("utf8 constant")?;
                match string_from_utf8(bytes) {
                    Some(s) => Ok(ConstantValue::ConstantUtf8(s)),
                    None => Err(
                        MessageError::with_kind(ErrorKind::InvalidEncoding, "utf8 constant"),
                    ),
                }
            },
        }
    }

    /// The tag byte of this constant.
    pub fn byte(&self) -> (r: u8)
        ensures
            r == self@.tag(),
    {
        match self {
            ConstantValue::Null => 0,
            ConstantValue::ConstantClass(_) => CONSTANT_CLASS,
            ConstantValue::ConstantFieldref(_, _) => CONSTANT_FIELDREF,
            ConstantValue::ConstantMethodref(_, _) => CONSTANT_METHODREF,
            ConstantValue::ConstantInterfaceMethodref(_, _) => CONSTANT_INTERFACE_METHODREF,
            ConstantValue::ConstantString(_) => CONSTANT_STRING,
            ConstantValue::ConstantInteger(_) => CONSTANT_INTEGER,
            ConstantValue::ConstantFloat(_) => CONSTANT_FLOAT,
            ConstantValue::ConstantLong(_) => CONSTANT_LONG,
            ConstantValue::ConstantDouble(_) => CONSTANT_DOUBLE,
            ConstantValue::ConstantNameAndType(_, _) => CONSTANT_NAME_AND_TYPE,
            ConstantValue::ConstantUtf8(_) => CONSTANT_UTF8,
            ConstantValue::ConstantMethodHandle(_, _) => CONSTANT_METHOD_HANDLE,
            ConstantValue::ConstantMethodType(_) => CONSTANT_METHOD_TYPE,
            ConstantValue::ConstantDynamic(_, _) => CONSTANT_DYNAMIC,
            ConstantValue::ConstantInvokeDynamic(_, _) => CONSTANT_INVOKE_DYNAMIC,
            ConstantValue::ConstantModule(_) => CONSTANT_MODULE,
            ConstantValue::ConstantPackage(_) => CONSTANT_PACKAGE,
        }
    }

    /// Writes the tag byte, then the payload; fails as an overflow when the
    /// text is too long for its `u16` length. The null placeholder has no tag
    /// on the wire: writing it fails as an unknown tag 0, writing nothing.
    pub fn write_to(&self, writer: &mut DataWriter) -> (r: Result<()>)
        ensures
            r is Ok <==> self@.encodable(),
            r is Ok ==> final(writer).written() == old(writer).written() + self@.bytes(),
            r is Err ==> r->Err_0.kind == if self@ is Null {
                ErrorKind::UnknownConstantTag(0)
            } else {
                ErrorKind::SizeOverflow
            },
    {
        if let ConstantValue::Null = self {
            return Err(MessageError::with_kind(ErrorKind::UnknownConstantTag(0), "constant tag"));
        }
        writer.write_u8("constant tag", self.byte())?;
        match self {
            ConstantValue::Null => {},
            ConstantValue::ConstantClass(a) | ConstantValue::ConstantString(a)
            | ConstantValue::ConstantMethodType(a) | ConstantValue::ConstantModule(a)
            | ConstantValue::ConstantPackage(a) => {
                writer.write_u16("constant index", *a)?;
            },
            ConstantValue::ConstantFieldref(a, b) | ConstantValue::ConstantMethodref(a, b)
            | ConstantValue::ConstantInterfaceMethodref(a, b)
            | ConstantValue::ConstantNameAndType(a, b) | ConstantValue::ConstantDynamic(a, b)
            | ConstantValue::ConstantInvokeDynamic(a, b) => {
                writer.write_u16("constant first index", *a)?;
                writer.write_u16("constant second index", *b)?;
            },
            ConstantValue::ConstantMethodHandle(k, a) => {
                writer.write_u8("method handle kind", *k)?;
                writer.write_u16("method handle reference", *a)?;
            },
            ConstantValue::ConstantInteger(v) => {
                writer.write_i32("integer constant", *v)?;
            },
            ConstantValue::ConstantFloat(v) => {
                writer.write_u32("float constant", *v)?;
            },
            ConstantValue::ConstantLong(v) => {
                writer.write_i64("long constant", *v)?;
            },
            ConstantValue::ConstantDouble(v) => {
                writer.write_u64("double constant", *v)?;
            },
            ConstantValue::ConstantUtf8(s) => {
                writer.write_bytes_with_pre_size("utf8 constant", s.as_str().as_bytes())?;
            },
        }
        assert(writer.written() =~= old(writer).written() + self@.bytes());
        Ok(())
    }

    /// The number of bytes `write_to` writes.
    pub fn byte_size(&self) -> (r: usize)
        requires
            self@.encodable(),
        ensures
            r == self@.bytes().len(),
    {
        match self {
            ConstantValue::Null => 1,
            ConstantValue::ConstantClass(_) | ConstantValue::ConstantString(_)
            | ConstantValue::ConstantMethodType(_) | ConstantValue::ConstantModule(_)
            | ConstantValue::ConstantPackage(_) => 3,
            ConstantValue::ConstantMethodHandle(_, _) => 4,
            ConstantValue::ConstantInteger(_) | ConstantValue::ConstantFloat(_) => 5,
            ConstantValue::ConstantFieldref(_, _) | ConstantValue::ConstantMethodref(_, _)
            | ConstantValue::ConstantInterfaceMethodref(_, _)
            | ConstantValue::ConstantNameAndType(_, _) | ConstantValue::ConstantDynamic(_, _)
            | ConstantValue::ConstantInvokeDynamic(_, _) => 5,
            ConstantValue::ConstantLong(_) | ConstantValue::ConstantDouble(_) => 9,
            ConstantValue::ConstantUtf8(s) => 3 + s.as_str().as_bytes().len(),
        }
    }

    /// Whether two constants are the same value: the same variant with the
    /// same fields, numbers compared bit for bit.
    pub fn same_as(&self, other: &ConstantValue) -> (r: bool)
        ensures
            r == (self@ == other@),
    {
        match (self, other) {
            (ConstantValue::Null, ConstantValue::Null) => true,
            (ConstantValue::ConstantClass(a), ConstantValue::ConstantClass(b)) => *a == *b,
            (ConstantValue::ConstantString(a), ConstantValue::ConstantString(b)) => *a == *b,
            (ConstantValue::ConstantMethodType(a), ConstantValue::ConstantMethodType(b)) => *a
                == *b,
            (ConstantValue::ConstantModule(a), ConstantValue::ConstantModule(b)) => *a == *b,
            (ConstantValue::ConstantPackage(a), ConstantValue::ConstantPackage(b)) => *a == *b,
            (ConstantValue::ConstantInteger(a), ConstantValue::ConstantInteger(b)) => *a == *b,
            (ConstantValue::ConstantFloat(a), ConstantValue::ConstantFloat(b)) => *a == *b,
            (ConstantValue::ConstantLong(a), ConstantValue::ConstantLong(b)) => *a == *b,
            (ConstantValue::ConstantDouble(a), ConstantValue::ConstantDouble(b)) => *a == *b,
            (ConstantValue::ConstantUtf8(a), ConstantValue::ConstantUtf8(b)) => *a == *b,
            (ConstantValue::ConstantFieldref(a1, b1), ConstantValue::ConstantFieldref(a2, b2)) => *a1
                == *a2 && *b1 == *b2,
            (ConstantValue::ConstantMethodref(a1, b1), ConstantValue::ConstantMethodref(a2, b2)) => *a1
                == *a2 && *b1 == *b2,
            (
                ConstantValue::ConstantInterfaceMethodref(a1, b1),
                ConstantValue::ConstantInterfaceMethodref(a2, b2),
            ) => *a1 == *a2 && *b1 == *b2,
            (
                ConstantValue::ConstantNameAndType(a1, b1),
                ConstantValue::ConstantNameAndType(a2, b2),
            ) => *a1 == *a2 && *b1 == *b2,
            (ConstantValue::ConstantDynamic(a1, b1), ConstantValue::ConstantDynamic(a2, b2)) => *a1
                == *a2 && *b1 == *b2,
            (
                ConstantValue::ConstantInvokeDynamic(a1, b1),
                ConstantValue::ConstantInvokeDynamic(a2, b2),
            ) => *a1 == *a2 && *b1 == *b2,
            (
                ConstantValue::ConstantMethodHandle(a1, b1),
                ConstantValue::ConstantMethodHandle(a2, b2),
            ) => *a1 == *a2 && *b1 == *b2,
            _ => false,
        }
    }

    /// A copy of this constant.
    pub fn duplicate(&self) -> (r: ConstantValue)
        ensures
            r@ == self@,
    {
        match self {
            ConstantValue::Null => ConstantValue::Null,
            ConstantValue::ConstantClass(a) => ConstantValue::ConstantClass(*a),
            ConstantValue::ConstantFieldref(a, b) => ConstantValue::ConstantFieldref(*a, *b),
            ConstantValue::ConstantMethodref(a, b) => ConstantValue::ConstantMethodref(*a, *b),
            ConstantValue::ConstantInterfaceMethodref(a, b) => ConstantValue::ConstantInterfaceMethodref(
                *a,
                *b,
            ),
            ConstantValue::ConstantString(a) => ConstantValue::ConstantString(*a),
            ConstantValue::ConstantInteger(v) => ConstantValue::ConstantInteger(*v),
            ConstantValue::ConstantFloat(v) => ConstantValue::ConstantFloat(*v),
            ConstantValue::ConstantLong(v) => ConstantValue::ConstantLong(*v),
            ConstantValue::ConstantDouble(v) => ConstantValue::ConstantDouble(*v),
            ConstantValue::ConstantNameAndType(a, b) => ConstantValue::ConstantNameAndType(*a, *b),
            ConstantValue::ConstantUtf8(s) => ConstantValue::ConstantUtf8(s.clone()),
            ConstantValue::ConstantMethodHandle(k, a) => ConstantValue::ConstantMethodHandle(*k, *a),
            ConstantValue::ConstantMethodType(a) => ConstantValue::ConstantMethodType(*a),
            ConstantValue::ConstantDynamic(a, b) => ConstantValue::ConstantDynamic(*a, *b),
            ConstantValue::ConstantInvokeDynamic(a, b) => ConstantValue::ConstantInvokeDynamic(*a, *b),
            ConstantValue::ConstantModule(a) => ConstantValue::ConstantModule(*a),
            ConstantValue::ConstantPackage(a) => ConstantValue::ConstantPackage(*a),
        }
    }
}

impl Clone for ConstantValue {
    fn clone(&self) -> (r: Self)
        ensures
            r@ == self@,
    {
        self.duplicate()
    }
}

impl PartialEq for ConstantValue {
    fn eq(&self, other: &ConstantValue) -> (r: bool) {
        self.same_as(other)
    }
}

impl vstd::std_specs::cmp::PartialEqSpecImpl for ConstantValue {
    open spec fn obeys_eq_spec() -> bool {
        true
    }

    open spec fn eq_spec(&self, other: &ConstantValue) -> bool {
        self@ == other@
    }
}


/// A pool on the wire: its count plus one as a `u16`, then that many
/// constants less one.
pub open spec fn p_pool(d: Seq<u8>, p: int) -> PRes<Seq<ConstantModel>> {
    match p_u16(d, p) {
        Ok((n, q)) => p_many(d, q, if n == 0 {
            0
        } else {
            (n - 1) as nat
        }, constant_parser()),
        Err(e) => Err(e),
    }
}

/// The constants' encodings, one after the other.
pub open spec fn constants_bytes(cs: Seq<ConstantModel>) -> Seq<u8> {
    ser_many(cs, constant_bytes())
}

/// A pool's encoding: its count plus one, then its constants.
pub open spec fn pool_bytes(cs: Seq<ConstantModel>) -> Seq<u8> {
    be16((cs.len() + 1) as u16) + constants_bytes(cs)
}

/// Every constant can be written and there are few enough of them.
pub open spec fn pool_encodable(cs: Seq<ConstantModel>) -> bool {
    &&& cs.len() <= MAX_CONSTANTS
    &&& forall|i: int| 0 <= i < cs.len() ==> (#[trigger] cs[i]).encodable()
}

/// The pool after inserting `v` with deduplication, and the index returned: the
/// first equal constant's index when there is one, else `v` appended.
pub open spec fn dedup_insert(cs: Seq<ConstantModel>, v: ConstantModel) -> (Seq<ConstantModel>, int) {
    if exists|j: int| 0 <= j < cs.len() && cs[j] == v {
        let j = choose|j: int|
            0 <= j < cs.len() && cs[j] == v && forall|i: int| 0 <= i < j ==> cs[i] != v;
        (cs, j + 1)
    } else {
        (cs.push(v), cs.len() as int + 1)
    }
}

/// The constant pool of a class: constants at indices `1..=count`, with the
/// null placeholder standing at index 0.
#[derive(Debug)]
pub struct ConstantPool {
    count: u16,
    values: Vec<ConstantValue>,
}

impl View for ConstantPool {
    type V = Seq<ConstantModel>;

    /// The constants at indices `1..=count`, in order.
    closed spec fn view(&self) -> Seq<ConstantModel> {
        self.values@.skip(1).map_values(|c: ConstantValue| c@)
    }
}

impl ConstantPool {
    /// The placeholder stands first, and the count says how many follow.
    pub closed spec fn wf(&self) -> bool {
        &&& self.values@.len() == self.count + 1
        &&& self.values@[0]@ == ConstantModel::Null
        &&& self.count <= MAX_CONSTANTS
        &&& forall|i: int| 1 <= i < self.values@.len() ==> !(#[trigger] self.values@[i]@ is Null)
    }

    proof fn lemma_view(&self)
        requires
            self.wf(),
        ensures
            self@.len() == self.count,
            forall|i: int| 0 <= i < self.count ==> #[trigger] self@[i] == self.values@[i + 1]@,
    {
    }

    /// An empty pool with room for `capacity` constants.
    pub fn new(capacity: u16) -> (r: ConstantPool)
        ensures
            r.wf(),
            r@ == Seq::<ConstantModel>::empty(),
    {
        let mut values = Vec::with_capacity(capacity as usize);
        values.push(ConstantValue::Null);
        let r = ConstantPool { count: 0, values };
        assert(r@ =~= Seq::<ConstantModel>::empty());
        r
    }

    /// A count plus one, then that many constants less one, each kept as read.
    pub fn new_with_reader(reader: &mut DataReader) -> (r: Result<ConstantPool>)
        ensures
            final(reader).input() == old(reader).input(),
            read_as(r, p_pool(old(reader).input(), old(reader).offset()), final(reader).offset()),
            r is Ok ==> r->Ok_0.wf(),
    {
        let pool_count = reader.read_u16("constant pool count")?;
        let n: u16 = if pool_count == 0 {
            0
        } else {
            pool_count - 1
        };
        let ghost d = reader.input();
        let ghost start = reader.offset();
        let mut pool = ConstantPool::new(pool_count);
        proof {
            pool.lemma_view();
        }
        let mut i: u16 = 0;
        while i < n
            invariant
                old(reader).input() == d,
                p_pool(d, old(reader).offset()) == p_many(d, start, n as nat, constant_parser()),
                i <= n,
                n < 0xFFFF,
                reader.input() == d,
                pool.wf(),
                pool.count == i,
                p_many(d, start, i as nat, constant_parser()) == Ok::<(Seq<ConstantModel>, int), ErrorKind>((pool@, reader.offset())),
            decreases n - i,
        {
            let ghost before = reader.offset();
            let value = match ConstantValue::new_with_reader(reader) {
                Ok(v) => v,
                Err(e) => {
                    proof {
                        crate::wire::lemma_many_err(d, start, (i + 1) as nat, n as nat, constant_parser());
                    }
                    return Err(e);
                },
            };
            pool.add_constant_force(value);
            i = i + 1;
        }
        Ok(pool)
    }

    /// The count plus one, then each constant in index order.
    pub fn write_to(&self, writer: &mut DataWriter) -> (r: Result<()>)
        requires
            self.wf(),
        ensures
            r is Ok <==> pool_encodable(self@),
            r is Ok ==> final(writer).written() == old(writer).written() + pool_bytes(self@),
            r is Err ==> r->Err_0.kind == ErrorKind::SizeOverflow,
    {
        proof {
            self.lemma_view();
        }
        writer.write_u16("constant pool count", self.count + 1)?;
        let ghost mid = writer.written();
        let mut i: usize = 1;
        while i < self.values.len()
            invariant
                self.wf(),
                1 <= i <= self.values@.len(),
                self@.len() == self.count,
                forall|j: int| 0 <= j < self.count ==> #[trigger] self@[j] == self.values@[j + 1]@,
                forall|j: int| 0 <= j < i - 1 ==> (#[trigger] self@[j]).encodable(),
                writer.written() == mid + constants_bytes(self@.take(i - 1)),
            decreases self.values@.len() - i,
        {
            let ghost before = writer.written();
            match self.values[i].write_to(writer) {
                Ok(()) => {},
                Err(e) => {
                    assert(!self@[i - 1].encodable());
                    return Err(e);
                },
            }
            proof {
                let t = self@.take(i as int);
                assert(t.drop_last() =~= self@.take(i - 1));
                assert(t.last() == self@[i - 1]);
            }
            i = i + 1;
        }
        assert(self@.take(self.count as int) =~= self@);
        assert(writer.written() =~= old(writer).written() + pool_bytes(self@));
        Ok(())
    }

    /// Appends `value` without looking for an equal constant, and returns its
    /// index. The null placeholder is not a constant and is never stored.
    pub fn add_constant_force(&mut self, value: ConstantValue) -> (r: u16)
        requires
            old(self).wf(),
            old(self)@.len() < MAX_CONSTANTS,
            !(value@ is Null),
        ensures
            final(self).wf(),
            final(self)@ == old(self)@.push(value@),
            r == final(self)@.len(),
    {
        self.count = self.count + 1;
        self.values.push(value);
        assert(self@ =~= old(self)@.push(value@));
        self.count
    }

    /// The index of the first constant equal to `value`, appending `value`
    /// first when there is none. The null placeholder is never stored.
    pub fn add_constant(&mut self, value: ConstantValue) -> (r: u16)
        requires
            old(self).wf(),
            old(self)@.len() < MAX_CONSTANTS || exists|j: int|
                0 <= j < old(self)@.len() && old(self)@[j] == value@,
            !(value@ is Null),
        ensures
            final(self).wf(),
            (final(self)@, r as int) == dedup_insert(old(self)@, value@),
    {
        proof {
            self.lemma_view();
        }
        let mut i: usize = 1;
        while i < self.values.len()
            invariant
                self.wf(),
                1 <= i <= self.values@.len(),
                self@.len() == self.count,
                forall|j: int| 0 <= j < self.count ==> #[trigger] self@[j] == self.values@[j + 1]@,
                forall|j: int| 0 <= j < i - 1 ==> #[trigger] self@[j] != value@,
            decreases self.values@.len() - i,
        {
            if self.values[i].same_as(&value) {
                proof {
                    let cs = self@;
                    let j = i - 1;
                    assert(0 <= j < cs.len() && cs[j] == value@);
                    let c = choose|c: int|
                        0 <= c < cs.len() && cs[c] == value@ && forall|x: int| 0 <= x < c ==> cs[x] != value@;
                    assert(c == j);
                }
                return i as u16;
            }
            i = i + 1;
        }
        self.add_constant_force(value)
    }

    /// The constant at `index`, or the null placeholder when `index` is 0 or
    /// past the last constant.
    pub fn get_constant_item(&self, index: u16) -> (r: &ConstantValue)
        requires
            self.wf(),
        ensures
            1 <= index <= self@.len() ==> r@ == self@[index - 1],
            !(1 <= index <= self@.len()) ==> r@ == ConstantModel::Null,
    {
        proof {
            self.lemma_view();
        }
        if index == 0 || index > self.count {
            &self.values[0]
        } else {
            &self.values[index as usize]
        }
    }

    /// How many constants the pool holds.
    pub fn get_constant_count(&self) -> (r: u16)
        requires
            self.wf(),
        ensures
            r == self@.len(),
    {
        proof {
            self.lemma_view();
        }
        self.count
    }
}


impl ConstantModel {
    /// The size of the constant's encoding: the tag byte and the payload.
    pub open spec fn size(self) -> int {
        match self {
            ConstantModel::Null => 1,
            ConstantModel::Class(_) | ConstantModel::String(_) | ConstantModel::MethodType(_)
            | ConstantModel::Module(_) | ConstantModel::Package(_) => 3,
            ConstantModel::MethodHandle(_, _) => 4,
            ConstantModel::Integer(_) | ConstantModel::Float(_) => 5,
            ConstantModel::Long(_) | ConstantModel::Double(_) => 9,
            ConstantModel::Utf8(s) => 3 + encode_utf8(s).len() as int,
            _ => 5,
        }
    }
}

pub open spec fn constant_size() -> spec_fn(ConstantModel) -> int {
    |c: ConstantModel| c.size()
}

/// The size of a pool's encoding: two bytes of count, then each constant.
pub open spec fn pool_size(cs: Seq<ConstantModel>) -> int {
    2 + crate::wire::sum_many(cs, constant_size())
}

/// A pool's encoding is as long as its size says.
pub proof fn lemma_pool_len(cs: Seq<ConstantModel>)
    ensures
        pool_bytes(cs).len() == pool_size(cs),
        crate::wire::sum_many(cs, constant_size()) >= 0,
{
    assert forall|c: ConstantModel| #[trigger] constant_bytes()(c).len() == constant_size()(c) by {}
    crate::wire::lemma_ser_len(cs, constant_bytes(), constant_size());
    assert forall|c: ConstantModel| #[trigger] constant_size()(c) >= 0 by {}
    crate::wire::lemma_sum_prefix(cs, constant_size(), 0);
}

proof fn lemma_many_constants_encodable(d: Seq<u8>, p: int, n: nat)
    ensures
        p_many(d, p, n, constant_parser()) is Ok ==> {
            let cs = p_many(d, p, n, constant_parser())->Ok_0.0;
            &&& cs.len() == n
            &&& forall|i: int| 0 <= i < cs.len() ==> (#[trigger] cs[i]).encodable()
        },
    decreases n,
{
    if n > 0 {
        lemma_many_constants_encodable(d, p, (n - 1) as nat);
        let q = p_many(d, p, (n - 1) as nat, constant_parser())->Ok_0.1;
        lemma_constant_inverts(d, q);
    }
}

/// A pool read with a non-zero count is exactly the bytes it was read from,
/// and can be written back.
pub proof fn lemma_pool_inverts(d: Seq<u8>, p: int)
    ensures
        p_pool(d, p) is Ok ==> {
            let (cs, q) = p_pool(d, p)->Ok_0;
            &&& 0 <= p <= q <= d.len()
            &&& pool_encodable(cs)
            &&& (crate::wire::u16_of(d[p], d[p + 1]) != 0 ==> d.subrange(p, q) == pool_bytes(cs))
        },
{
    if p_pool(d, p) is Ok {
        let (n, q0) = p_u16(d, p)->Ok_0;
        let m: nat = if n == 0 {
            0
        } else {
            (n - 1) as nat
        };
        lemma_constant_parser();
        crate::wire::lemma_many_inverts(d, q0, m, constant_parser(), constant_bytes());
        lemma_many_constants_encodable(d, q0, m);
        let (cs, q) = p_pool(d, p)->Ok_0;
        if n != 0 {
            crate::wire::lemma_be16_of(d[p], d[p + 1]);
            assert(d.subrange(p, q) =~= d.subrange(p, q0) + d.subrange(q0, q));
            assert(d.subrange(p, q0) =~= seq![d[p], d[p + 1]]);
        }
    }
}

/// A pool read from a prefix of the input: as before when the prefix holds
/// all of it, truncated otherwise.
pub proof fn lemma_pool_truncates(d: Seq<u8>, p: int, k: int)
    requires
        p_pool(d, p) is Ok,
        0 <= k <= d.len(),
    ensures
        p_pool(d.take(k), p) == if p_pool(d, p)->Ok_0.1 <= k {
            p_pool(d, p)
        } else {
            Err(ErrorKind::TruncatedInput)
        },
{
    crate::wire::lemma_take_reads(d, k);
    lemma_constant_parser();
    let (n, q0) = p_u16(d, p)->Ok_0;
    let m: nat = if n == 0 {
        0
    } else {
        (n - 1) as nat
    };
    crate::wire::lemma_many_inverts(d, q0, m, constant_parser(), constant_bytes());
    if q0 <= k {
        crate::wire::lemma_many_truncates(d, q0, m, k, constant_parser(), constant_bytes());
    }
}

impl ConstantPool {
    /// The number of bytes `write_to` writes.
    pub fn byte_size(&self) -> (r: usize)
        requires
            self.wf(),
            pool_encodable(self@),
            pool_size(self@) <= usize::MAX,
        ensures
            r == pool_size(self@),
    {
        proof {
            self.lemma_view();
            assert forall|c: ConstantModel| #[trigger] constant_size()(c) >= 0 by {}
        }
        let ghost s = self@;
        let mut total: usize = 2;
        let mut i: usize = 1;
        while i < self.values.len()
            invariant
                self.wf(),
                s == self@,
                1 <= i <= self.values@.len(),
                self@.len() == self.count,
                forall|j: int| 0 <= j < self.count ==> #[trigger] self@[j] == self.values@[j + 1]@,
                pool_encodable(s),
                pool_size(s) <= usize::MAX,
                forall|c: ConstantModel| #[trigger] constant_size()(c) >= 0,
                total == 2 + crate::wire::sum_many(s.take(i - 1), constant_size()),
            decreases self.values@.len() - i,
        {
            proof {
                crate::wire::lemma_sum_step(s, constant_size(), i - 1);
                crate::wire::lemma_sum_prefix(s, constant_size(), i as int);
                assert(s[i - 1].encodable());
            }
            total = total + self.values[i].byte_size();
            i = i + 1;
        }
        assert(s.take(s.len() as int) =~= s);
        total
    }
}


/// Deduplication: inserting the same value twice with deduplication returns
/// the same index both times, and the pool grows by at most one constant,
/// by exactly one when the value was not in it before.
pub proof fn lemma_dedup_twice(cs: Seq<ConstantModel>, v: ConstantModel)
    ensures
        ({
            let (cs1, i1) = dedup_insert(cs, v);
            let (cs2, i2) = dedup_insert(cs1, v);
            &&& i1 == i2
            &&& cs2 == cs1
            &&& 1 <= i1 <= cs1.len()
            &&& cs1[i1 - 1] == v
            &&& cs1.len() == if exists|j: int| 0 <= j < cs.len() && cs[j] == v {
                cs.len() as int
            } else {
                cs.len() as int + 1
            }
        }),
{
    let (cs1, i1) = dedup_insert(cs, v);
    if exists|j: int| 0 <= j < cs.len() && cs[j] == v {
        let w = choose|j: int| 0 <= j < cs.len() && cs[j] == v;
        lemma_first_match(cs, v, w);
    } else {
        assert(cs1[cs.len() as int] == v);
        assert forall|x: int| 0 <= x < cs.len() implies cs1[x] != v by {
            assert(cs1[x] == cs[x]);
        }
        let c = choose|j: int|
            0 <= j < cs1.len() && cs1[j] == v && forall|x: int| 0 <= x < j ==> cs1[x] != v;
        assert(c == cs.len());
    }
}

/// Where `v` occurs in `cs`, there is a first place it occurs.
proof fn lemma_first_match(cs: Seq<ConstantModel>, v: ConstantModel, w: int)
    requires
        0 <= w < cs.len(),
        cs[w] == v,
    ensures
        exists|j: int| 0 <= j < cs.len() && cs[j] == v && forall|x: int| 0 <= x < j ==> cs[x] != v,
    decreases w,
{
    if exists|x: int| 0 <= x < w && cs[x] == v {
        let x = choose|x: int| 0 <= x < w && cs[x] == v;
        lemma_first_match(cs, v, x);
    } else {
        assert(forall|x: int| 0 <= x < w ==> cs[x] != v);
    }
}


/// Every pool index that a constant carries is 0 or names a constant of the
/// pool (is at most the count).
pub open spec fn refs_in_range(cs: Seq<ConstantModel>) -> bool {
    forall|i: int, j: int|
        0 <= i < cs.len() && 0 <= j < cs[i].refs().len() ==> #[trigger] cs[i].refs()[j] <= cs.len()
}

/// The indices `c` carries are all at most `count`.
pub open spec fn refs_within(c: ConstantModel, count: int) -> bool {
    forall|j: int| 0 <= j < c.refs().len() ==> #[trigger] c.refs()[j] <= count
}

/// Index validity is kept by insertion: inserting, with or without
/// deduplication, a constant whose indices name constants of the resulting
/// pool into a pool whose indices are valid leaves them valid.
pub proof fn lemma_insert_keeps_refs(cs: Seq<ConstantModel>, v: ConstantModel)
    requires
        refs_in_range(cs),
        refs_within(v, cs.len() as int + 1),
    ensures
        refs_in_range(cs.push(v)),
        refs_in_range(dedup_insert(cs, v).0),
{
    let ps = cs.push(v);
    assert forall|i: int, j: int| 0 <= i < ps.len() && 0 <= j < ps[i].refs().len() implies #[trigger] ps[i].refs()[j]
        <= ps.len() by {
        if i < cs.len() {
            assert(ps[i] == cs[i]);
        }
    }
}

impl ConstantValue {
    /// Whether every pool index this constant carries is at most `count`.
    pub fn refs_at_most(&self, count: u16) -> (r: bool)
        ensures
            r == refs_within(self@, count as int),
    {
        match self {
            ConstantValue::ConstantClass(a) | ConstantValue::ConstantString(a)
            | ConstantValue::ConstantMethodType(a) | ConstantValue::ConstantModule(a)
            | ConstantValue::ConstantPackage(a) | ConstantValue::ConstantMethodHandle(_, a)
            | ConstantValue::ConstantDynamic(_, a) | ConstantValue::ConstantInvokeDynamic(_, a) => {
                let r = *a <= count;
                assert(self@.refs()[0] == *a);
                r
            },
            ConstantValue::ConstantFieldref(a, b) | ConstantValue::ConstantMethodref(a, b)
            | ConstantValue::ConstantInterfaceMethodref(a, b)
            | ConstantValue::ConstantNameAndType(a, b) => {
                let r = *a <= count && *b <= count;
                assert(self@.refs()[0] == *a && self@.refs()[1] == *b);
                r
            },
            _ => true,
        }
    }
}

impl ConstantPool {
    /// Whether every pool index carried by a constant of the pool is 0 or
    /// names one of its constants.
    pub fn indices_valid(&self) -> (r: bool)
        requires
            self.wf(),
        ensures
            r == refs_in_range(self@),
    {
        proof {
            self.lemma_view();
        }
        let mut i: usize = 1;
        while i < self.values.len()
            invariant
                self.wf(),
                1 <= i <= self.values@.len(),
                self@.len() == self.count,
                forall|j: int| 0 <= j < self.count ==> #[trigger] self@[j] == self.values@[j + 1]@,
                forall|x: int| 0 <= x < i - 1 ==> refs_within(#[trigger] self@[x], self.count as int),
            decreases self.values@.len() - i,
        {
            if !self.values[i].refs_at_most(self.count) {
                proof {
                    let c = self@[i - 1];
                    let j = choose|j: int| 0 <= j < c.refs().len() && !(c.refs()[j] <= self.count);
                    assert(!(self@[i - 1].refs()[j] <= self@.len()));
                }
                return false;
            }
            i = i + 1;
        }
        proof {
            assert forall|x: int, j: int|
                0 <= x < self@.len() && 0 <= j < self@[x].refs().len() implies #[trigger] self@[x].refs()[j]
                <= self@.len() by {
                assert(refs_within(self@[x], self.count as int));
            }
        }
        true
    }
}

impl Clone for ConstantPool {
    fn clone(&self) -> (r: Self)
        ensures
            self.wf() ==> r.wf() && r@ == self@,
    {
        let values = self.values.clone();
        proof {
            assert forall|i: int| 0 <= i < self.values@.len() implies values@[i]@
                == self.values@[i]@ by {
                assert(cloned(self.values@[i], values@[i]));
            }
            if self.wf() {
                assert(values@.skip(1).map_values(|c: ConstantValue| c@) =~= self.values@.skip(
                    1,
                ).map_values(|c: ConstantValue| c@));
            }
        }
        ConstantPool { count: self.count, values }
    }
}

} // verus!
