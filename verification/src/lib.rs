//! A Lox front end: scanning, parsing support, diagnostics and resolution,
//! with the behaviour of each piece stated and proved.

pub mod gc;
pub mod interpreter;
pub mod parser;
pub mod run;
pub mod text;
pub mod vm;
