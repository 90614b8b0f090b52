//! A small content-addressed version control core: object hashing,
//! on-disk encodings of objects, trees and the index, the HEAD file format
//! and the command line lexer and parser.

pub mod bytes;
pub mod cli;
pub mod command;
pub mod constants;
pub mod execute;
pub mod internals;
pub mod text;
