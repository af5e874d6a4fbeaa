//! Static analysis and run-time structures of the tree-walking interpreter.

pub mod environment;
pub mod resolver;
