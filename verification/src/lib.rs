//! A compiler for KSON configuration documents: schema loading, document
//! parsing with live type validation, and JSON emission, together with the
//! LSON text encoding.

pub mod error;
pub mod json;
pub mod kmodel;
pub mod kson;
pub mod literal;
pub mod lson;
pub mod outline;
pub mod reader;
pub mod scope;
pub mod text;
pub mod validate;
pub mod version;
