//! Reading and writing class files: the constant pool, fields, methods,
//! attributes and code attributes, with a fast byte scanner beside the
//! full decoder.

pub mod common;
pub mod wire;
pub mod support;
pub mod constant_pool;
pub mod attribute_info;
pub mod field_info;
pub mod method_info;
pub mod jclass_info;
pub mod util;
pub mod lazy_value;
pub mod class_parser;
