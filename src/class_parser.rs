//! Reading a class file one section at a time, on demand. Each section is
//! read at most once: its value, or the error that reading it met, is kept in
//! a cache cell and handed out again; asking for a section first reads those
//! before it, and an error in an earlier section is handed out for every
//! later one.
use vstd::prelude::*;
use crate::attribute_info::{
    AttributeModel, OriginAttribute, attrs_view, clone_attributes, p_attributes, read_attributes,
};
use crate::common::{ErrorKind, MessageError, Result};
use crate::constant_pool::{ConstantModel, ConstantPool, p_pool};
use crate::field_info::{FieldInfo, MemberModel, member_parser};
use crate::jclass_info::{
    JCLASS_MAGIC, JClassInfo, fields_view, index_parser, methods_view, p_class, p_class_tail,
    read_fields, read_interfaces, read_methods,
};
use crate::lazy_value::LazyValue;
use crate::method_info::MethodInfo;
use crate::support::data_reader::DataReader;
use crate::wire::{PRes, p_counted, p_u16, p_u32};

verus! {

/// The magic number at `s`; any value but the signature fails.
pub open spec fn o_magic(d: Seq<u8>, s: int) -> PRes<u32> {
    match p_u32(d, s) {
        Ok((m, q)) => if m == JCLASS_MAGIC {
            Ok((m, q))
        } else {
            Err(ErrorKind::InvalidMagic)
        },
        Err(e) => Err(e),
    }
}

/// The minor version, read after the magic number.
pub open spec fn o_minor(d: Seq<u8>, s: int) -> PRes<u16> {
    match o_magic(d, s) {
        Ok((_, q)) => p_u16(d, q),
        Err(e) => Err(e),
    }
}

/// The major version, read after the minor version.
pub open spec fn o_major(d: Seq<u8>, s: int) -> PRes<u16> {
    match o_minor(d, s) {
        Ok((_, q)) => p_u16(d, q),
        Err(e) => Err(e),
    }
}

/// The constant pool, read after the versions.
pub open spec fn o_pool(d: Seq<u8>, s: int) -> PRes<Seq<ConstantModel>> {
    match o_major(d, s) {
        Ok((_, q)) => p_pool(d, q),
        Err(e) => Err(e),
    }
}

/// The access flags, read after the constant pool.
pub open spec fn o_access(d: Seq<u8>, s: int) -> PRes<u16> {
    match o_pool(d, s) {
        Ok((_, q)) => p_u16(d, q),
        Err(e) => Err(e),
    }
}

/// The this-class index, read after the access flags.
pub open spec fn o_this(d: Seq<u8>, s: int) -> PRes<u16> {
    match o_access(d, s) {
        Ok((_, q)) => p_u16(d, q),
        Err(e) => Err(e),
    }
}

/// The super-class index, read after the this-class index.
pub open spec fn o_super(d: Seq<u8>, s: int) -> PRes<u16> {
    match o_this(d, s) {
        Ok((_, q)) => p_u16(d, q),
        Err(e) => Err(e),
    }
}

/// The interface indices, read after the super-class index.
pub open spec fn o_interfaces(d: Seq<u8>, s: int) -> PRes<Seq<u16>> {
    match o_super(d, s) {
        Ok((_, q)) => p_counted(d, q, index_parser()),
        Err(e) => Err(e),
    }
}

/// The fields, read after the interfaces.
pub open spec fn o_fields(d: Seq<u8>, s: int) -> PRes<Seq<MemberModel>> {
    match o_interfaces(d, s) {
        Ok((_, q)) => p_counted(d, q, member_parser()),
        Err(e) => Err(e),
    }
}

/// The methods, read after the fields.
pub open spec fn o_methods(d: Seq<u8>, s: int) -> PRes<Seq<MemberModel>> {
    match o_fields(d, s) {
        Ok((_, q)) => p_counted(d, q, member_parser()),
        Err(e) => Err(e),
    }
}

/// The class attributes, read after the methods.
pub open spec fn o_attributes(d: Seq<u8>, s: int) -> PRes<Seq<AttributeModel>> {
    match o_methods(d, s) {
        Ok((_, q)) => p_attributes(d, q),
        Err(e) => Err(e),
    }
}


/// Reading section by section is decoding: the sections read one by one
/// succeed exactly when the whole class file decodes, each with the value the
/// decoder gives it, and otherwise fail with the decoder's error.
pub proof fn lemma_sections_are_decode(d: Seq<u8>, s: int)
    ensures
        o_attributes(d, s) is Ok <==> p_class(d, s) is Ok,
        p_class(d, s) is Err ==> o_attributes(d, s)->Err_0 == p_class(d, s)->Err_0,
        p_class(d, s) is Ok ==> {
            let m = p_class(d, s)->Ok_0.0;
            &&& o_magic(d, s)->Ok_0.0 == m.magic
            &&& o_minor(d, s)->Ok_0.0 == m.minor_version
            &&& o_major(d, s)->Ok_0.0 == m.major_version
            &&& o_pool(d, s)->Ok_0.0 == m.constants
            &&& o_access(d, s)->Ok_0.0 == m.access_flags
            &&& o_this(d, s)->Ok_0.0 == m.class_index
            &&& o_super(d, s)->Ok_0.0 == m.superclass_index
            &&& o_interfaces(d, s)->Ok_0.0 == m.interfaces
            &&& o_fields(d, s)->Ok_0.0 == m.fields
            &&& o_methods(d, s)->Ok_0.0 == m.methods
            &&& o_attributes(d, s)->Ok_0.0 == m.attributes
            &&& o_attributes(d, s)->Ok_0.1 == p_class(d, s)->Ok_0.1
        },
{
    reveal(p_class_tail);
}

/// A cache cell agrees with the outcome of reading its section: empty, or
/// the value read, or the error met.
pub open spec fn holds_eq<T: Clone>(c: LazyValue<T>, o: PRes<T>) -> bool {
    match c {
        LazyValue::UnLoad => true,
        LazyValue::Loaded(v) => o == Ok::<(T, int), ErrorKind>((v, o->Ok_0.1)),
        LazyValue::Failed(e) => o is Err && e.kind == o->Err_0,
        LazyValue::Absent => false,
    }
}

/// As `holds_eq`, for a cell whose value is seen through its view.
pub open spec fn holds_view<T: Clone + View>(c: LazyValue<T>, o: PRes<T::V>) -> bool {
    match c {
        LazyValue::UnLoad => true,
        LazyValue::Loaded(v) => o is Ok && v@ == o->Ok_0.0,
        LazyValue::Failed(e) => o is Err && e.kind == o->Err_0,
        LazyValue::Absent => false,
    }
}

/// As `holds_eq`, for a cell of fields.
pub open spec fn holds_fields(c: LazyValue<Vec<FieldInfo>>, o: PRes<Seq<MemberModel>>) -> bool {
    match c {
        LazyValue::UnLoad => true,
        LazyValue::Loaded(v) => o is Ok && fields_view(v@) == o->Ok_0.0,
        LazyValue::Failed(e) => o is Err && e.kind == o->Err_0,
        LazyValue::Absent => false,
    }
}

/// As `holds_eq`, for a cell of methods.
pub open spec fn holds_methods(c: LazyValue<Vec<MethodInfo>>, o: PRes<Seq<MemberModel>>) -> bool {
    match c {
        LazyValue::UnLoad => true,
        LazyValue::Loaded(v) => o is Ok && methods_view(v@) == o->Ok_0.0,
        LazyValue::Failed(e) => o is Err && e.kind == o->Err_0,
        LazyValue::Absent => false,
    }
}

/// As `holds_eq`, for a cell of attributes.
pub open spec fn holds_attrs(c: LazyValue<Vec<OriginAttribute>>, o: PRes<Seq<AttributeModel>>) -> bool {
    match c {
        LazyValue::UnLoad => true,
        LazyValue::Loaded(v) => o is Ok && attrs_view(v@) == o->Ok_0.0,
        LazyValue::Failed(e) => o is Err && e.kind == o->Err_0,
        LazyValue::Absent => false,
    }
}

/// Reads the sections of a class file on demand, keeping each outcome.
pub struct ClassParser<'a> {
    reader: DataReader<'a>,
    start: Ghost<int>,
    stage: Ghost<int>,
    magic: LazyValue<u32>,
    minor_version: LazyValue<u16>,
    major_version: LazyValue<u16>,
    constant_pool: LazyValue<ConstantPool>,
    access_flags: LazyValue<u16>,
    class_index: LazyValue<u16>,
    superclass_index: LazyValue<u16>,
    interfaces: LazyValue<Vec<u16>>,
    fields: LazyValue<Vec<FieldInfo>>,
    methods: LazyValue<Vec<MethodInfo>>,
    attributes: LazyValue<Vec<OriginAttribute>>,
}

impl<'a> ClassParser<'a> {
    /// The input being read.
    pub closed spec fn input(&self) -> Seq<u8> {
        self.reader.input()
    }

    /// Where the class file starts in the input.
    pub closed spec fn start(&self) -> int {
        self.start@
    }

    /// How many sections, in wire order, have been read successfully.
    pub closed spec fn stage(&self) -> int {
        self.stage@
    }

    /// Every cell agrees with its section's outcome; the sections before the
    /// stage are read, those after it are not, and when the one at the stage
    /// is not read either the reader stands where it starts.
    pub closed spec fn wf(&self) -> bool {
        let d = self.input();
        let s = self.start();
        let k = self.stage@;
        &&& 0 <= k <= 11
        &&& holds_eq(self.magic, o_magic(d, s))
        &&& (k > 0 ==> self.magic is Loaded)
        &&& (k == 0 ==> !(self.magic is Loaded))
        &&& (k == 0 && self.magic is UnLoad ==> self.reader.offset() == s)
        &&& holds_eq(self.minor_version, o_minor(d, s))
        &&& (k > 1 ==> self.minor_version is Loaded)
        &&& (k < 1 ==> self.minor_version is UnLoad)
        &&& (k == 1 ==> !(self.minor_version is Loaded))
        &&& (k == 1 && self.minor_version is UnLoad ==> self.reader.offset() == o_magic(d, s)->Ok_0.1)
        &&& holds_eq(self.major_version, o_major(d, s))
        &&& (k > 2 ==> self.major_version is Loaded)
        &&& (k < 2 ==> self.major_version is UnLoad)
        &&& (k == 2 ==> !(self.major_version is Loaded))
        &&& (k == 2 && self.major_version is UnLoad ==> self.reader.offset() == o_minor(d, s)->Ok_0.1)
        &&& holds_view(self.constant_pool, o_pool(d, s))
        &&& (k > 3 ==> self.constant_pool is Loaded)
        &&& (k < 3 ==> self.constant_pool is UnLoad)
        &&& (k == 3 ==> !(self.constant_pool is Loaded))
        &&& (k == 3 && self.constant_pool is UnLoad ==> self.reader.offset() == o_major(d, s)->Ok_0.1)
        &&& holds_eq(self.access_flags, o_access(d, s))
        &&& (k > 4 ==> self.access_flags is Loaded)
        &&& (k < 4 ==> self.access_flags is UnLoad)
        &&& (k == 4 ==> !(self.access_flags is Loaded))
        &&& (k == 4 && self.access_flags is UnLoad ==> self.reader.offset() == o_pool(d, s)->Ok_0.1)
        &&& holds_eq(self.class_index, o_this(d, s))
        &&& (k > 5 ==> self.class_index is Loaded)
        &&& (k < 5 ==> self.class_index is UnLoad)
        &&& (k == 5 ==> !(self.class_index is Loaded))
        &&& (k == 5 && self.class_index is UnLoad ==> self.reader.offset() == o_access(d, s)->Ok_0.1)
        &&& holds_eq(self.superclass_index, o_super(d, s))
        &&& (k > 6 ==> self.superclass_index is Loaded)
        &&& (k < 6 ==> self.superclass_index is UnLoad)
        &&& (k == 6 ==> !(self.superclass_index is Loaded))
        &&& (k == 6 && self.superclass_index is UnLoad ==> self.reader.offset() == o_this(d, s)->Ok_0.1)
        &&& holds_view(self.interfaces, o_interfaces(d, s))
        &&& (k > 7 ==> self.interfaces is Loaded)
        &&& (k < 7 ==> self.interfaces is UnLoad)
        &&& (k == 7 ==> !(self.interfaces is Loaded))
        &&& (k == 7 && self.interfaces is UnLoad ==> self.reader.offset() == o_super(d, s)->Ok_0.1)
        &&& holds_fields(self.fields, o_fields(d, s))
        &&& (k > 8 ==> self.fields is Loaded)
        &&& (k < 8 ==> self.fields is UnLoad)
        &&& (k == 8 ==> !(self.fields is Loaded))
        &&& (k == 8 && self.fields is UnLoad ==> self.reader.offset() == o_interfaces(d, s)->Ok_0.1)
        &&& holds_methods(self.methods, o_methods(d, s))
        &&& (k > 9 ==> self.methods is Loaded)
        &&& (k < 9 ==> self.methods is UnLoad)
        &&& (k == 9 ==> !(self.methods is Loaded))
        &&& (k == 9 && self.methods is UnLoad ==> self.reader.offset() == o_fields(d, s)->Ok_0.1)
        &&& holds_attrs(self.attributes, o_attributes(d, s))
        &&& (k > 10 ==> self.attributes is Loaded)
        &&& (k < 10 ==> self.attributes is UnLoad)
        &&& (k == 10 ==> !(self.attributes is Loaded))
        &&& (k == 10 && self.attributes is UnLoad ==> self.reader.offset() == o_methods(d, s)->Ok_0.1)
        &&& (self.constant_pool is Loaded ==> self.constant_pool->Loaded_0.wf())
    }

    /// A parser over the class file that starts at the reader's position;
    /// nothing is read yet.
    pub fn new(reader: DataReader<'a>) -> (r: ClassParser<'a>)
        ensures
            r.wf(),
            r.input() == reader.input(),
            r.start() == reader.offset(),
            r.stage() == 0,
    {
        let ghost s = reader.offset();
        ClassParser {
            reader,
            start: Ghost(s),
            stage: Ghost(0),
            magic: LazyValue::UnLoad,
            minor_version: LazyValue::UnLoad,
            major_version: LazyValue::UnLoad,
            constant_pool: LazyValue::UnLoad,
            access_flags: LazyValue::UnLoad,
            class_index: LazyValue::UnLoad,
            superclass_index: LazyValue::UnLoad,
            interfaces: LazyValue::UnLoad,
            fields: LazyValue::UnLoad,
            methods: LazyValue::UnLoad,
            attributes: LazyValue::UnLoad,
        }
    }

    fn load_magic(&mut self) -> (r: Result<()>)
        requires
            old(self).wf(),
        ensures
            final(self).wf(),
            final(self).input() == old(self).input(),
            final(self).start() == old(self).start(),
            r is Ok <==> o_magic(old(self).input(), old(self).start()) is Ok,
            r is Err ==> r->Err_0.kind == o_magic(old(self).input(), old(self).start())->Err_0,
            r is Ok ==> final(self).stage() > 0,
    {
        match &self.magic {
            LazyValue::Loaded(_) => {
                return Ok(());
            },
            LazyValue::Failed(e) => {
                return Err(e.clone());
            },
            _ => {},
        }
        let res = match self.reader.read_u32("magic") {
            Ok(m) => if m == JCLASS_MAGIC {
                Ok(m)
            } else {
                Err(MessageError::with_kind(ErrorKind::InvalidMagic, "magic"))
            },
            Err(e) => Err(e),
        };
        match res {
            Ok(v) => {
                self.magic.some(v);
                self.stage = Ghost(1);
                Ok(())
            },
            Err(e) => {
                self.magic.err(e.clone());
                Err(e)
            },
        }
    }

    fn load_minor_version(&mut self) -> (r: Result<()>)
        requires
            old(self).wf(),
        ensures
            final(self).wf(),
            final(self).input() == old(self).input(),
            final(self).start() == old(self).start(),
            r is Ok <==> o_minor(old(self).input(), old(self).start()) is Ok,
            r is Err ==> r->Err_0.kind == o_minor(old(self).input(), old(self).start())->Err_0,
            r is Ok ==> final(self).stage() > 1,
    {
        self.load_magic()?;
        match &self.minor_version {
            LazyValue::Loaded(_) => {
                return Ok(());
            },
            LazyValue::Failed(e) => {
                return Err(e.clone());
            },
            _ => {},
        }
        let res = self.reader.read_u16("minor version");
        match res {
            Ok(v) => {
                self.minor_version.some(v);
                self.stage = Ghost(2);
                Ok(())
            },
            Err(e) => {
                self.minor_version.err(e.clone());
                Err(e)
            },
        }
    }

    fn load_major_version(&mut self) -> (r: Result<()>)
        requires
            old(self).wf(),
        ensures
            final(self).wf(),
            final(self).input() == old(self).input(),
            final(self).start() == old(self).start(),
            r is Ok <==> o_major(old(self).input(), old(self).start()) is Ok,
            r is Err ==> r->Err_0.kind == o_major(old(self).input(), old(self).start())->Err_0,
            r is Ok ==> final(self).stage() > 2,
    {
        self.load_minor_version()?;
        match &self.major_version {
            LazyValue::Loaded(_) => {
                return Ok(());
            },
            LazyValue::Failed(e) => {
                return Err(e.clone());
            },
            _ => {},
        }
        let res = self.reader.read_u16("major version");
        match res {
            Ok(v) => {
                self.major_version.some(v);
                self.stage = Ghost(3);
                Ok(())
            },
            Err(e) => {
                self.major_version.err(e.clone());
                Err(e)
            },
        }
    }

    fn load_constant_pool(&mut self) -> (r: Result<()>)
        requires
            old(self).wf(),
        ensures
            final(self).wf(),
            final(self).input() == old(self).input(),
            final(self).start() == old(self).start(),
            r is Ok <==> o_pool(old(self).input(), old(self).start()) is Ok,
            r is Err ==> r->Err_0.kind == o_pool(old(self).input(), old(self).start())->Err_0,
            r is Ok ==> final(self).stage() > 3,
    {
        self.load_major_version()?;
        match &self.constant_pool {
            LazyValue::Loaded(_) => {
                return Ok(());
            },
            LazyValue::Failed(e) => {
                return Err(e.clone());
            },
            _ => {},
        }
        let res = ConstantPool::new_with_reader(&mut self.reader);
        match res {
            Ok(v) => {
                self.constant_pool.some(v);
                self.stage = Ghost(4);
                Ok(())
            },
            Err(e) => {
                self.constant_pool.err(e.clone());
                Err(e)
            },
        }
    }

    fn load_access_flags(&mut self) -> (r: Result<()>)
        requires
            old(self).wf(),
        ensures
            final(self).wf(),
            final(self).input() == old(self).input(),
            final(self).start() == old(self).start(),
            r is Ok <==> o_access(old(self).input(), old(self).start()) is Ok,
            r is Err ==> r->Err_0.kind == o_access(old(self).input(), old(self).start())->Err_0,
            r is Ok ==> final(self).stage() > 4,
    {
        self.load_constant_pool()?;
        match &self.access_flags {
            LazyValue::Loaded(_) => {
                return Ok(());
            },
            LazyValue::Failed(e) => {
                return Err(e.clone());
            },
            _ => {},
        }
        let res = self.reader.read_u16("access flags");
        match res {
            Ok(v) => {
                self.access_flags.some(v);
                self.stage = Ghost(5);
                Ok(())
            },
            Err(e) => {
                self.access_flags.err(e.clone());
                Err(e)
            },
        }
    }

    fn load_class_index(&mut self) -> (r: Result<()>)
        requires
            old(self).wf(),
        ensures
            final(self).wf(),
            final(self).input() == old(self).input(),
            final(self).start() == old(self).start(),
            r is Ok <==> o_this(old(self).input(), old(self).start()) is Ok,
            r is Err ==> r->Err_0.kind == o_this(old(self).input(), old(self).start())->Err_0,
            r is Ok ==> final(self).stage() > 5,
    {
        self.load_access_flags()?;
        match &self.class_index {
            LazyValue::Loaded(_) => {
                return Ok(());
            },
            LazyValue::Failed(e) => {
                return Err(e.clone());
            },
            _ => {},
        }
        let res = self.reader.read_u16("this class");
        match res {
            Ok(v) => {
                self.class_index.some(v);
                self.stage = Ghost(6);
                Ok(())
            },
            Err(e) => {
                self.class_index.err(e.clone());
                Err(e)
            },
        }
    }

    fn load_superclass_index(&mut self) -> (r: Result<()>)
        requires
            old(self).wf(),
        ensures
            final(self).wf(),
            final(self).input() == old(self).input(),
            final(self).start() == old(self).start(),
            r is Ok <==> o_super(old(self).input(), old(self).start()) is Ok,
            r is Err ==> r->Err_0.kind == o_super(old(self).input(), old(self).start())->Err_0,
            r is Ok ==> final(self).stage() > 6,
    {
        self.load_class_index()?;
        match &self.superclass_index {
            LazyValue::Loaded(_) => {
                return Ok(());
            },
            LazyValue::Failed(e) => {
                return Err(e.clone());
            },
            _ => {},
        }
        let res = self.reader.read_u16("super class");
        match res {
            Ok(v) => {
                self.superclass_index.some(v);
                self.stage = Ghost(7);
                Ok(())
            },
            Err(e) => {
                self.superclass_index.err(e.clone());
                Err(e)
            },
        }
    }

    fn load_interfaces(&mut self) -> (r: Result<()>)
        requires
            old(self).wf(),
        ensures
            final(self).wf(),
            final(self).input() == old(self).input(),
            final(self).start() == old(self).start(),
            r is Ok <==> o_interfaces(old(self).input(), old(self).start()) is Ok,
            r is Err ==> r->Err_0.kind == o_interfaces(old(self).input(), old(self).start())->Err_0,
            r is Ok ==> final(self).stage() > 7,
    {
        self.load_superclass_index()?;
        match &self.interfaces {
            LazyValue::Loaded(_) => {
                return Ok(());
            },
            LazyValue::Failed(e) => {
                return Err(e.clone());
            },
            _ => {},
        }
        let res = read_interfaces(&mut self.reader);
        match res {
            Ok(v) => {
                self.interfaces.some(v);
                self.stage = Ghost(8);
                Ok(())
            },
            Err(e) => {
                self.interfaces.err(e.clone());
                Err(e)
            },
        }
    }

    fn load_fields(&mut self) -> (r: Result<()>)
        requires
            old(self).wf(),
        ensures
            final(self).wf(),
            final(self).input() == old(self).input(),
            final(self).start() == old(self).start(),
            r is Ok <==> o_fields(old(self).input(), old(self).start()) is Ok,
            r is Err ==> r->Err_0.kind == o_fields(old(self).input(), old(self).start())->Err_0,
            r is Ok ==> final(self).stage() > 8,
    {
        self.load_interfaces()?;
        match &self.fields {
            LazyValue::Loaded(_) => {
                return Ok(());
            },
            LazyValue::Failed(e) => {
                return Err(e.clone());
            },
            _ => {},
        }
        let res = read_fields(&mut self.reader);
        match res {
            Ok(v) => {
                self.fields.some(v);
                self.stage = Ghost(9);
                Ok(())
            },
            Err(e) => {
                self.fields.err(e.clone());
                Err(e)
            },
        }
    }

    fn load_methods(&mut self) -> (r: Result<()>)
        requires
            old(self).wf(),
        ensures
            final(self).wf(),
            final(self).input() == old(self).input(),
            final(self).start() == old(self).start(),
            r is Ok <==> o_methods(old(self).input(), old(self).start()) is Ok,
            r is Err ==> r->Err_0.kind == o_methods(old(self).input(), old(self).start())->Err_0,
            r is Ok ==> final(self).stage() > 9,
    {
        self.load_fields()?;
        match &self.methods {
            LazyValue::Loaded(_) => {
                return Ok(());
            },
            LazyValue::Failed(e) => {
                return Err(e.clone());
            },
            _ => {},
        }
        let res = read_methods(&mut self.reader);
        match res {
            Ok(v) => {
                self.methods.some(v);
                self.stage = Ghost(10);
                Ok(())
            },
            Err(e) => {
                self.methods.err(e.clone());
                Err(e)
            },
        }
    }

    fn load_attributes(&mut self) -> (r: Result<()>)
        requires
            old(self).wf(),
        ensures
            final(self).wf(),
            final(self).input() == old(self).input(),
            final(self).start() == old(self).start(),
            r is Ok <==> o_attributes(old(self).input(), old(self).start()) is Ok,
            r is Err ==> r->Err_0.kind == o_attributes(old(self).input(), old(self).start())->Err_0,
            r is Ok ==> final(self).stage() > 10,
    {
        self.load_methods()?;
        match &self.attributes {
            LazyValue::Loaded(_) => {
                return Ok(());
            },
            LazyValue::Failed(e) => {
                return Err(e.clone());
            },
            _ => {},
        }
        let res = read_attributes(&mut self.reader, "class attribute count");
        match res {
            Ok(v) => {
                self.attributes.some(v);
                self.stage = Ghost(11);
                Ok(())
            },
            Err(e) => {
                self.attributes.err(e.clone());
                Err(e)
            },
        }
    }

    /// The magic: read on the first call, kept afterwards; fails as the
    /// first failing section up to it does.
    pub fn magic(&mut self) -> (r: Result<u32>)
        requires
            old(self).wf(),
        ensures
            final(self).wf(),
            final(self).input() == old(self).input(),
            final(self).start() == old(self).start(),
            match o_magic(old(self).input(), old(self).start()) {
                Ok((v, _)) => r is Ok && r->Ok_0 == v,
                Err(e) => r is Err && r->Err_0.kind == e,
            },
    {
        self.load_magic()?;
        match &self.magic {
            LazyValue::Loaded(v) => Ok(*v),
            _ => Err(MessageError::with_kind(ErrorKind::Missing, "magic")),
        }
    }

    /// The minor version: read on the first call, kept afterwards; fails as the
    /// first failing section up to it does.
    pub fn minor_version(&mut self) -> (r: Result<u16>)
        requires
            old(self).wf(),
        ensures
            final(self).wf(),
            final(self).input() == old(self).input(),
            final(self).start() == old(self).start(),
            match o_minor(old(self).input(), old(self).start()) {
                Ok((v, _)) => r is Ok && r->Ok_0 == v,
                Err(e) => r is Err && r->Err_0.kind == e,
            },
    {
        self.load_minor_version()?;
        match &self.minor_version {
            LazyValue::Loaded(v) => Ok(*v),
            _ => Err(MessageError::with_kind(ErrorKind::Missing, "minor version")),
        }
    }

    /// The major version: read on the first call, kept afterwards; fails as the
    /// first failing section up to it does.
    pub fn major_version(&mut self) -> (r: Result<u16>)
        requires
            old(self).wf(),
        ensures
            final(self).wf(),
            final(self).input() == old(self).input(),
            final(self).start() == old(self).start(),
            match o_major(old(self).input(), old(self).start()) {
                Ok((v, _)) => r is Ok && r->Ok_0 == v,
                Err(e) => r is Err && r->Err_0.kind == e,
            },
    {
        self.load_major_version()?;
        match &self.major_version {
            LazyValue::Loaded(v) => Ok(*v),
            _ => Err(MessageError::with_kind(ErrorKind::Missing, "major version")),
        }
    }

    /// The constant pool: read on the first call, kept afterwards; fails as the
    /// first failing section up to it does.
    pub fn constant_pool(&mut self) -> (r: Result<ConstantPool>)
        requires
            old(self).wf(),
        ensures
            final(self).wf(),
            final(self).input() == old(self).input(),
            final(self).start() == old(self).start(),
            match o_pool(old(self).input(), old(self).start()) {
                Ok((v, _)) => r is Ok && r->Ok_0@ == v,
                Err(e) => r is Err && r->Err_0.kind == e,
            },
            r is Ok ==> r->Ok_0.wf(),
    {
        self.load_constant_pool()?;
        match &self.constant_pool {
            LazyValue::Loaded(v) => Ok(v.clone()),
            _ => Err(MessageError::with_kind(ErrorKind::Missing, "constant pool")),
        }
    }

    /// The access flags: read on the first call, kept afterwards; fails as the
    /// first failing section up to it does.
    pub fn access_flags(&mut self) -> (r: Result<u16>)
        requires
            old(self).wf(),
        ensures
            final(self).wf(),
            final(self).input() == old(self).input(),
            final(self).start() == old(self).start(),
            match o_access(old(self).input(), old(self).start()) {
                Ok((v, _)) => r is Ok && r->Ok_0 == v,
                Err(e) => r is Err && r->Err_0.kind == e,
            },
    {
        self.load_access_flags()?;
        match &self.access_flags {
            LazyValue::Loaded(v) => Ok(*v),
            _ => Err(MessageError::with_kind(ErrorKind::Missing, "access flags")),
        }
    }

    /// The this class: read on the first call, kept afterwards; fails as the
    /// first failing section up to it does.
    pub fn class_index(&mut self) -> (r: Result<u16>)
        requires
            old(self).wf(),
        ensures
            final(self).wf(),
            final(self).input() == old(self).input(),
            final(self).start() == old(self).start(),
            match o_this(old(self).input(), old(self).start()) {
                Ok((v, _)) => r is Ok && r->Ok_0 == v,
                Err(e) => r is Err && r->Err_0.kind == e,
            },
    {
        self.load_class_index()?;
        match &self.class_index {
            LazyValue::Loaded(v) => Ok(*v),
            _ => Err(MessageError::with_kind(ErrorKind::Missing, "this class")),
        }
    }

    /// The super class: read on the first call, kept afterwards; fails as the
    /// first failing section up to it does.
    pub fn superclass_index(&mut self) -> (r: Result<u16>)
        requires
            old(self).wf(),
        ensures
            final(self).wf(),
            final(self).input() == old(self).input(),
            final(self).start() == old(self).start(),
            match o_super(old(self).input(), old(self).start()) {
                Ok((v, _)) => r is Ok && r->Ok_0 == v,
                Err(e) => r is Err && r->Err_0.kind == e,
            },
    {
        self.load_superclass_index()?;
        match &self.superclass_index {
            LazyValue::Loaded(v) => Ok(*v),
            _ => Err(MessageError::with_kind(ErrorKind::Missing, "super class")),
        }
    }

    /// The interfaces: read on the first call, kept afterwards; fails as the
    /// first failing section up to it does.
    pub fn interfaces(&mut self) -> (r: Result<Vec<u16>>)
        requires
            old(self).wf(),
        ensures
            final(self).wf(),
            final(self).input() == old(self).input(),
            final(self).start() == old(self).start(),
            match o_interfaces(old(self).input(), old(self).start()) {
                Ok((v, _)) => r is Ok && r->Ok_0@ == v,
                Err(e) => r is Err && r->Err_0.kind == e,
            },
    {
        self.load_interfaces()?;
        match &self.interfaces {
            LazyValue::Loaded(v) => Ok(clone_indices(v)),
            _ => Err(MessageError::with_kind(ErrorKind::Missing, "interfaces")),
        }
    }

    /// The fields: read on the first call, kept afterwards; fails as the
    /// first failing section up to it does.
    pub fn fields(&mut self) -> (r: Result<Vec<FieldInfo>>)
        requires
            old(self).wf(),
        ensures
            final(self).wf(),
            final(self).input() == old(self).input(),
            final(self).start() == old(self).start(),
            match o_fields(old(self).input(), old(self).start()) {
                Ok((v, _)) => r is Ok && fields_view(r->Ok_0@) == v,
                Err(e) => r is Err && r->Err_0.kind == e,
            },
    {
        self.load_fields()?;
        match &self.fields {
            LazyValue::Loaded(v) => Ok(clone_fields(v)),
            _ => Err(MessageError::with_kind(ErrorKind::Missing, "fields")),
        }
    }

    /// The methods: read on the first call, kept afterwards; fails as the
    /// first failing section up to it does.
    pub fn methods(&mut self) -> (r: Result<Vec<MethodInfo>>)
        requires
            old(self).wf(),
        ensures
            final(self).wf(),
            final(self).input() == old(self).input(),
            final(self).start() == old(self).start(),
            match o_methods(old(self).input(), old(self).start()) {
                Ok((v, _)) => r is Ok && methods_view(r->Ok_0@) == v,
                Err(e) => r is Err && r->Err_0.kind == e,
            },
    {
        self.load_methods()?;
        match &self.methods {
            LazyValue::Loaded(v) => Ok(clone_methods(v)),
            _ => Err(MessageError::with_kind(ErrorKind::Missing, "methods")),
        }
    }

    /// The attributes: read on the first call, kept afterwards; fails as the
    /// first failing section up to it does.
    pub fn attributes(&mut self) -> (r: Result<Vec<OriginAttribute>>)
        requires
            old(self).wf(),
        ensures
            final(self).wf(),
            final(self).input() == old(self).input(),
            final(self).start() == old(self).start(),
            match o_attributes(old(self).input(), old(self).start()) {
                Ok((v, _)) => r is Ok && attrs_view(r->Ok_0@) == v,
                Err(e) => r is Err && r->Err_0.kind == e,
            },
    {
        self.load_attributes()?;
        match &self.attributes {
            LazyValue::Loaded(v) => Ok(clone_attributes(v)),
            _ => Err(MessageError::with_kind(ErrorKind::Missing, "attributes")),
        }
    }

    /// The whole class file, every section read (once) and copied out; fails
    /// as decoding the class file does.
    pub fn get_jclass_info(&mut self) -> (r: Result<JClassInfo>)
        requires
            old(self).wf(),
        ensures
            final(self).wf(),
            final(self).input() == old(self).input(),
            final(self).start() == old(self).start(),
            match p_class(old(self).input(), old(self).start()) {
                Ok((m, _)) => r is Ok && r->Ok_0@ == m && r->Ok_0.wf(),
                Err(e) => r is Err && r->Err_0.kind == e,
            },
    {
        proof {
            lemma_sections_are_decode(self.input(), self.start());
        }
        let attributes = self.attributes()?;
        let magic = self.magic()?;
        let minor_version = self.minor_version()?;
        let major_version = self.major_version()?;
        let constant_pool = self.constant_pool()?;
        let access_flags = self.access_flags()?;
        let class_index = self.class_index()?;
        let superclass_index = self.superclass_index()?;
        let interfaces = self.interfaces()?;
        let fields = self.fields()?;
        let methods = self.methods()?;
        Ok(
            JClassInfo {
                magic,
                minor_version,
                major_version,
                constant_pool,
                access_flags,
                class_index,
                superclass_index,
                interfaces,
                fields,
                methods,
                attributes,
            },
        )
    }

    /// Reads every section not read yet; fails as the first failing section.
    pub fn load_all(&mut self) -> (r: Result<()>)
        requires
            old(self).wf(),
        ensures
            final(self).wf(),
            final(self).input() == old(self).input(),
            final(self).start() == old(self).start(),
            r is Ok <==> o_attributes(old(self).input(), old(self).start()) is Ok,
            r is Err ==> r->Err_0.kind == o_attributes(old(self).input(), old(self).start())->Err_0,
    {
        self.load_attributes()
    }
}

/// A copy of a list of interface indices.
fn clone_indices(v: &Vec<u16>) -> (r: Vec<u16>)
    ensures
        r@ == v@,
{
    let mut out: Vec<u16> = Vec::with_capacity(v.len());
    let mut i: usize = 0;
    while i < v.len()
        invariant
            i <= v@.len(),
            out@ == v@.take(i as int),
        decreases v@.len() - i,
    {
        out.push(v[i]);
        i = i + 1;
        assert(out@ =~= v@.take(i as int));
    }
    assert(v@.take(v@.len() as int) =~= v@);
    out
}

/// A copy of a list of fields.
fn clone_fields(v: &Vec<FieldInfo>) -> (r: Vec<FieldInfo>)
    ensures
        fields_view(r@) == fields_view(v@),
{
    let r = v.clone();
    assert forall|i: int| 0 <= i < v@.len() implies r@[i]@ == v@[i]@ by {
        assert(cloned(v@[i], r@[i]));
    }
    assert(fields_view(r@) =~= fields_view(v@));
    r
}

/// A copy of a list of methods.
fn clone_methods(v: &Vec<MethodInfo>) -> (r: Vec<MethodInfo>)
    ensures
        methods_view(r@) == methods_view(v@),
{
    let r = v.clone();
    assert forall|i: int| 0 <= i < v@.len() implies r@[i]@ == v@[i]@ by {
        assert(cloned(v@[i], r@[i]));
    }
    assert(methods_view(r@) =~= methods_view(v@));
    r
}

} // verus!
