//! A JSON library built around a recursive value model: a decoder that turns
//! text into a `Value` tree or a positioned `ParseError`, and an encoder that
//! turns a `Value` tree back into compact or pretty-printed text.

pub mod decode;
pub mod encode;
pub mod errors;
pub mod json;
pub mod laws;
pub mod value;

pub use errors::ParseError;
pub use json::Json;
pub use value::JVal;
pub use value::TypeMismatch;
pub use value::Value;
