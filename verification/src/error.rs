//! Error types of resolution, validation and code generation.

use vstd::prelude::*;

verus! {

/// An error of loading, resolving or parsing a network description.
#[derive(Debug, PartialEq)]
pub enum NexusCoreError {
    FileRead { path: String, message: String },
    TomlParse(String),
    SchemaParse { path: String, message: String },
    UnknownTransport(String),
    UnknownFieldType(String),
    SchemaNotFound(String),
    NoSchema { contract: String },
    UndefinedNode { node: String },
    UndefinedContract { contract: String },
}

/// The mathematical value of a `NexusCoreError`.
pub enum NexusCoreErrorV {
    FileRead { path: Seq<char>, message: Seq<char> },
    TomlParse(Seq<char>),
    SchemaParse { path: Seq<char>, message: Seq<char> },
    UnknownTransport(Seq<char>),
    UnknownFieldType(Seq<char>),
    SchemaNotFound(Seq<char>),
    NoSchema { contract: Seq<char> },
    UndefinedNode { node: Seq<char> },
    UndefinedContract { contract: Seq<char> },
}

impl View for NexusCoreError {
    type V = NexusCoreErrorV;

    open spec fn view(&self) -> NexusCoreErrorV {
        match self {
            NexusCoreError::FileRead { path, message } => NexusCoreErrorV::FileRead {
                path: path@,
                message: message@,
            },
            NexusCoreError::TomlParse(m) => NexusCoreErrorV::TomlParse(m@),
            NexusCoreError::SchemaParse { path, message } => NexusCoreErrorV::SchemaParse {
                path: path@,
                message: message@,
            },
            NexusCoreError::UnknownTransport(t) => NexusCoreErrorV::UnknownTransport(t@),
            NexusCoreError::UnknownFieldType(t) => NexusCoreErrorV::UnknownFieldType(t@),
            NexusCoreError::SchemaNotFound(p) => NexusCoreErrorV::SchemaNotFound(p@),
            NexusCoreError::NoSchema { contract } => NexusCoreErrorV::NoSchema {
                contract: contract@,
            },
            NexusCoreError::UndefinedNode { node } => NexusCoreErrorV::UndefinedNode {
                node: node@,
            },
            NexusCoreError::UndefinedContract { contract } => NexusCoreErrorV::UndefinedContract {
                contract: contract@,
            },
        }
    }
}

/// A rule violation found in a resolved network.
#[derive(Debug, PartialEq)]
pub enum ValidationError {
    UnmatchedSend { from_node: String, to_node: String, contract: String },
    UnmatchedReceive { from_node: String, to_node: String, contract: String },
    OrphanNode { node: String },
    IceoryxPodViolation { contract: String, field: String },
    DuplicateNodeName { name: String },
    DuplicateContractName { name: String },
}

/// The mathematical value of a `ValidationError`.
pub enum ValidationErrorV {
    UnmatchedSend { from_node: Seq<char>, to_node: Seq<char>, contract: Seq<char> },
    UnmatchedReceive { from_node: Seq<char>, to_node: Seq<char>, contract: Seq<char> },
    OrphanNode { node: Seq<char> },
    IceoryxPodViolation { contract: Seq<char>, field: Seq<char> },
    DuplicateNodeName { name: Seq<char> },
    DuplicateContractName { name: Seq<char> },
}

impl View for ValidationError {
    type V = ValidationErrorV;

    open spec fn view(&self) -> ValidationErrorV {
        match self {
            ValidationError::UnmatchedSend { from_node, to_node, contract } =>
                ValidationErrorV::UnmatchedSend {
                from_node: from_node@,
                to_node: to_node@,
                contract: contract@,
            },
            ValidationError::UnmatchedReceive { from_node, to_node, contract } =>
                ValidationErrorV::UnmatchedReceive {
                from_node: from_node@,
                to_node: to_node@,
                contract: contract@,
            },
            ValidationError::OrphanNode { node } => ValidationErrorV::OrphanNode { node: node@ },
            ValidationError::IceoryxPodViolation { contract, field } =>
                ValidationErrorV::IceoryxPodViolation { contract: contract@, field: field@ },
            ValidationError::DuplicateNodeName { name } => ValidationErrorV::DuplicateNodeName {
                name: name@,
            },
            ValidationError::DuplicateContractName { name } =>
                ValidationErrorV::DuplicateContractName { name: name@ },
        }
    }
}

/// The views of a sequence of validation errors.
pub open spec fn errors_view(s: Seq<ValidationError>) -> Seq<ValidationErrorV> {
    s.map_values(|e: ValidationError| e@)
}

/// An error of code generation.
#[derive(Debug)]
pub enum CodegenError {
    /// The named transport has no code generator yet.
    UnsupportedTransport(String),
    /// A template did not parse or render.
    TemplateError(minijinja::Error),
}

} // verus!
