pub mod data_reader;
