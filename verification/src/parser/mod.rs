pub mod parser;
pub mod tree;
