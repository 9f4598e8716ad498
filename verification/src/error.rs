//! The conditions that end a compile, and the warnings that do not.

use vstd::prelude::*;
use crate::kmodel::KType;

verus! {

/// A fatal condition. No document is produced once one is met.
#[derive(Debug, PartialEq, Eq)]
pub enum KsonError {
    /// No schema text is known under this path.
    SchemaNotFound(String),
    /// No document text is known under this path.
    DocumentNotFound(String),
    /// A schema declares an `Array` type without its element type in angle
    /// brackets.
    MalformedArrayType,
    /// A name declared with `@env` has no value in the environment.
    MissingEnvironmentVariable(String),
    /// The element type of an array is itself an array.
    NestedArrayRejected,
    /// The element with this index, counted from 1, does not have the
    /// element type.
    ArrayElementTypeMismatch(usize, KType),
    /// The value of the property with this key does not have this type.
    PropertyTypeMismatch(String, KType),
    /// The schema requires a section of this name at the top of the document.
    RequiredSectionMissing(String),
    /// The schema requires a property with this key in the section of the
    /// given name, or at the top of the document where no section is given.
    RequiredPropertyMissing(String, Option<String>),
}

/// What a `KsonError` says, with texts as character sequences.
pub enum Failure {
    SchemaNotFound(Seq<char>),
    DocumentNotFound(Seq<char>),
    MalformedArrayType,
    MissingEnvironmentVariable(Seq<char>),
    NestedArrayRejected,
    ArrayElementTypeMismatch(nat, KType),
    PropertyTypeMismatch(Seq<char>, KType),
    RequiredSectionMissing(Seq<char>),
    RequiredPropertyMissing(Seq<char>, Option<Seq<char>>),
}

impl View for KsonError {
    type V = Failure;

    open spec fn view(&self) -> Failure {
        match *self {
            KsonError::SchemaNotFound(path) => Failure::SchemaNotFound(path@),
            KsonError::DocumentNotFound(path) => Failure::DocumentNotFound(path@),
            KsonError::MalformedArrayType => Failure::MalformedArrayType,
            KsonError::MissingEnvironmentVariable(name) => Failure::MissingEnvironmentVariable(
                name@,
            ),
            KsonError::NestedArrayRejected => Failure::NestedArrayRejected,
            KsonError::ArrayElementTypeMismatch(index, kind) => Failure::ArrayElementTypeMismatch(
                index as nat,
                kind,
            ),
            KsonError::PropertyTypeMismatch(key, kind) => Failure::PropertyTypeMismatch(
                key@,
                kind,
            ),
            KsonError::RequiredSectionMissing(name) => Failure::RequiredSectionMissing(name@),
            KsonError::RequiredPropertyMissing(key, scope) => Failure::RequiredPropertyMissing(
                key@,
                match scope {
                    Some(name) => Some(name@),
                    None => None,
                },
            ),
        }
    }
}

/// `got` is the value that `wanted` names, or a failure that says what
/// `wanted` says.
pub open spec fn agrees<T>(got: Result<T, KsonError>, wanted: Result<T, Failure>) -> bool {
    match wanted {
        Ok(value) => got == Ok::<T, KsonError>(value),
        Err(failure) => got is Err && got->Err_0@ == failure,
    }
}

/// A condition that is reported and does not end the compile.
#[derive(Debug, Clone, Copy, PartialEq, Eq, Structural)]
pub enum Warning {
    /// No environment file was found. Names declared with `@env` are then
    /// looked up in the process environment alone.
    MissingEnvFile,
    /// A property of type `Any` was accepted. Reported once per document.
    AnyTypeUsed,
}

} // verus!
