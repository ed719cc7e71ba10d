pub mod byte_utils;
pub mod class_attr_check;
pub mod class_data_parser;
pub mod class_scan;
pub mod io_utils;
pub mod reader_utils;
pub mod scan_agreement;
