pub mod parser;
pub mod vm;
