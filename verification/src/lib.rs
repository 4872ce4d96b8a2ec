//! A parser for Protocol-Buffer schema files.
//!
//! [`FileDescriptor::parse`] reads the bytes of one `.proto` file and returns
//! the tree of what the file declares. What each grammar rule accepts is given
//! by a specification function over the input bytes; every parsing function is
//! proved to return exactly what its specification says.

pub mod descriptor;
pub mod lexer;
pub mod text;
pub mod attribute;
pub mod field;
pub mod message;
pub mod file;
pub mod laws;

pub use descriptor::{
    EnumValue, Enumeration, Extension, Field, FieldType, FileDescriptor, Message, OneOf, Rule,
    Syntax,
};
pub use file::ParseError;
