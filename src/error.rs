//! The library's error type: what a statement can fail with.
use vstd::prelude::*;
use crate::text::push_text;

verus! {

/// Errors of executing statements, with the values that explain them.
#[derive(Debug)]
pub enum Error {
    CollectionNotFound { name: String },
    CollectionAlreadyExists { name: String },
    CollectionCreateFailed { name: String, source: String },
    DocumentNotFound { collection: String, id: String },
    DocumentAlreadyExists { collection: String, id: String },
    MissingDocumentId,
    ViewNotFound { name: String },
    ViewAlreadyExists { name: String },
    SchemaValidation { collection: String, message: String },
    MissingRequiredField { collection: String, field: String },
    TypeMismatch { field: String, expected: String, actual: String },
    InvalidIdentifier { kind: &'static str, value: String, reason: &'static str },
    ReservedName { name: String },
    ParseError { message: String },
    QueryError { message: String },
    GitError { message: String },
    FileReadError { path: String, source: String },
    FileWriteError { path: String, source: String },
    YamlParseError { message: String },
    YamlSerializeError { message: String },
    JsonParseError { message: String },
    Other(String),
}

/// The message shown for an error.
pub open spec fn error_text(e: Error) -> Seq<char> {
    match e {
        Error::CollectionNotFound { name } => "Collection '"@ + name@ + "' does not exist"@,
        Error::CollectionAlreadyExists { name } => "Collection '"@ + name@ + "' already exists"@,
        Error::CollectionCreateFailed { name, source } => "Failed to create collection '"@ + name@ + "': "@ + source@,
        Error::DocumentNotFound { collection, id } => "Document '"@ + id@ + "' not found in collection '"@ + collection@ + "'"@,
        Error::DocumentAlreadyExists { collection, id } => "Document '"@ + id@ + "' already exists in collection '"@
            + collection@ + "'"@,
        Error::MissingDocumentId => "INSERT requires an 'id' column"@,
        Error::ViewNotFound { name } => "View '"@ + name@ + "' does not exist"@,
        Error::ViewAlreadyExists { name } => "View '"@ + name@ + "' already exists"@,
        Error::SchemaValidation { collection, message } => "Schema validation failed for collection '"@ + collection@
            + "': "@ + message@,
        Error::MissingRequiredField { collection, field } => "Missing required field '"@ + field@ + "' in collection '"@
            + collection@ + "'"@,
        Error::TypeMismatch { field, expected, actual } => "Type mismatch for field '"@ + field@ + "': expected "@
            + expected@ + ", got "@ + actual@,
        Error::InvalidIdentifier { kind, value, reason } => "Invalid "@ + kind@ + " '"@ + value@ + "': "@ + reason@,
        Error::ReservedName { name } => "Reserved name '"@ + name@ + "' cannot be used"@,
        Error::ParseError { message } => "Query parse error: "@ + message@,
        Error::QueryError { message } => "Query execution error: "@ + message@,
        Error::GitError { message } => "Git operation failed: "@ + message@,
        Error::FileReadError { path, source } => "Failed to read file '"@ + path@ + "': "@ + source@,
        Error::FileWriteError { path, source } => "Failed to write file '"@ + path@ + "': "@ + source@,
        Error::YamlParseError { message } => "Failed to parse YAML: "@ + message@,
        Error::YamlSerializeError { message } => "Failed to serialize to YAML: "@ + message@,
        Error::JsonParseError { message } => "Failed to parse JSON: "@ + message@,
        Error::Other(message) => message@,
    }
}

/// Hint printed with a collection that does not exist.
pub const HINT_COLLECTION_NOT_FOUND: &'static str = "Create the collection first with: CREATE COLLECTION <name>";
/// Hint printed with a document that does not exist.
pub const HINT_DOCUMENT_NOT_FOUND: &'static str = "Check the document ID and collection name";
/// Hint printed with an `INSERT` without an `id` column.
pub const HINT_MISSING_ID: &'static str = "Add an 'id' column: INSERT INTO collection (id, ...) VALUES ('my-id', ...)";
/// Hint printed with an invalid identifier.
pub const HINT_INVALID_IDENTIFIER: &'static str = "Use only letters, numbers, underscores, and hyphens";
/// Hint printed with a missing required field.
pub const HINT_MISSING_FIELD: &'static str = "Add the required field to your INSERT statement";

/// The hint shown with an error, if it has one.
pub open spec fn hint_of(e: Error) -> Option<&'static str> {
    match e {
        Error::CollectionNotFound { .. } => Some(HINT_COLLECTION_NOT_FOUND),
        Error::DocumentNotFound { .. } => Some(HINT_DOCUMENT_NOT_FOUND),
        Error::MissingDocumentId => Some(HINT_MISSING_ID),
        Error::InvalidIdentifier { .. } => Some(HINT_INVALID_IDENTIFIER),
        Error::MissingRequiredField { .. } => Some(HINT_MISSING_FIELD),
        _ => None,
    }
}

impl Error {
    /// A hint for fixing the error, for the kinds that have one.
    pub fn suggestion(&self) -> (r: Option<&'static str>)
        ensures
            r == hint_of(*self),
    {
        match self {
            Error::CollectionNotFound { .. } => Some(HINT_COLLECTION_NOT_FOUND),
            Error::DocumentNotFound { .. } => Some(HINT_DOCUMENT_NOT_FOUND),
            Error::MissingDocumentId => Some(HINT_MISSING_ID),
            Error::InvalidIdentifier { .. } => Some(HINT_INVALID_IDENTIFIER),
            Error::MissingRequiredField { .. } => Some(HINT_MISSING_FIELD),
            _ => None,
        }
    }

    /// Whether the caller can go on after the error: a missing collection,
    /// document or view, an invalid identifier, or a parse error.
    pub fn is_recoverable(&self) -> (r: bool)
        ensures
            r == (self is CollectionNotFound || self is DocumentNotFound || self is ViewNotFound
                || self is InvalidIdentifier || self is ParseError),
    {
        match self {
            Error::CollectionNotFound { .. } => true,
            Error::DocumentNotFound { .. } => true,
            Error::ViewNotFound { .. } => true,
            Error::InvalidIdentifier { .. } => true,
            Error::ParseError { .. } => true,
            _ => false,
        }
    }

    /// The message shown for the error.
    pub fn to_text(&self) -> (r: String)
        ensures
            r@ == error_text(*self),
    {
        let mut r = String::new();
        match self {
            Error::CollectionNotFound { name } => {
                push_text(&mut r, "Collection '");
                push_text(&mut r, name.as_str());
                push_text(&mut r, "' does not exist");
            },
            Error::CollectionAlreadyExists { name } => {
                push_text(&mut r, "Collection '");
                push_text(&mut r, name.as_str());
                push_text(&mut r, "' already exists");
            },
            Error::CollectionCreateFailed { name, source } => {
                push_text(&mut r, "Failed to create collection '");
                push_text(&mut r, name.as_str());
                push_text(&mut r, "': ");
                push_text(&mut r, source.as_str());
            },
            Error::DocumentNotFound { collection, id } => {
                push_text(&mut r, "Document '");
                push_text(&mut r, id.as_str());
                push_text(&mut r, "' not found in collection '");
                push_text(&mut r, collection.as_str());
                push_text(&mut r, "'");
            },
            Error::DocumentAlreadyExists { collection, id } => {
                push_text(&mut r, "Document '");
                push_text(&mut r, id.as_str());
                push_text(&mut r, "' already exists in collection '");
                push_text(&mut r, collection.as_str());
                push_text(&mut r, "'");
            },
            Error::MissingDocumentId => {
                push_text(&mut r, "INSERT requires an 'id' column");
            },
            Error::ViewNotFound { name } => {
                push_text(&mut r, "View '");
                push_text(&mut r, name.as_str());
                push_text(&mut r, "' does not exist");
            },
            Error::ViewAlreadyExists { name } => {
                push_text(&mut r, "View '");
                push_text(&mut r, name.as_str());
                push_text(&mut r, "' already exists");
            },
            Error::SchemaValidation { collection, message } => {
                push_text(&mut r, "Schema validation failed for collection '");
                push_text(&mut r, collection.as_str());
                push_text(&mut r, "': ");
                push_text(&mut r, message.as_str());
            },
            Error::MissingRequiredField { collection, field } => {
                push_text(&mut r, "Missing required field '");
                push_text(&mut r, field.as_str());
                push_text(&mut r, "' in collection '");
                push_text(&mut r, collection.as_str());
                push_text(&mut r, "'");
            },
            Error::TypeMismatch { field, expected, actual } => {
                push_text(&mut r, "Type mismatch for field '");
                push_text(&mut r, field.as_str());
                push_text(&mut r, "': expected ");
                push_text(&mut r, expected.as_str());
                push_text(&mut r, ", got ");
                push_text(&mut r, actual.as_str());
            },
            Error::InvalidIdentifier { kind, value, reason } => {
                push_text(&mut r, "Invalid ");
                push_text(&mut r, kind);
                push_text(&mut r, " '");
                push_text(&mut r, value.as_str());
                push_text(&mut r, "': ");
                push_text(&mut r, reason);
            },
            Error::ReservedName { name } => {
                push_text(&mut r, "Reserved name '");
                push_text(&mut r, name.as_str());
                push_text(&mut r, "' cannot be used");
            },
            Error::ParseError { message } => {
                push_text(&mut r, "Query parse error: ");
                push_text(&mut r, message.as_str());
            },
            Error::QueryError { message } => {
                push_text(&mut r, "Query execution error: ");
                push_text(&mut r, message.as_str());
            },
            Error::GitError { message } => {
                push_text(&mut r, "Git operation failed: ");
                push_text(&mut r, message.as_str());
            },
            Error::FileReadError { path, source } => {
                push_text(&mut r, "Failed to read file '");
                push_text(&mut r, path.as_str());
                push_text(&mut r, "': ");
                push_text(&mut r, source.as_str());
            },
            Error::FileWriteError { path, source } => {
                push_text(&mut r, "Failed to write file '");
                push_text(&mut r, path.as_str());
                push_text(&mut r, "': ");
                push_text(&mut r, source.as_str());
            },
            Error::YamlParseError { message } => {
                push_text(&mut r, "Failed to parse YAML: ");
                push_text(&mut r, message.as_str());
            },
            Error::YamlSerializeError { message } => {
                push_text(&mut r, "Failed to serialize to YAML: ");
                push_text(&mut r, message.as_str());
            },
            Error::JsonParseError { message } => {
                push_text(&mut r, "Failed to parse JSON: ");
                push_text(&mut r, message.as_str());
            },
            Error::Other(message) => {
                push_text(&mut r, message.as_str());
            },
        }
        assert(r@ =~= error_text(*self));
        r
    }
}

/// Reason given for an identifier longer than the maximum.
pub const REASON_TOO_LONG: &'static str = "exceeds maximum length";
/// Reason given for an empty identifier.
pub const REASON_EMPTY: &'static str = "cannot be empty";

/// `e` is how an identifier check that failed with `v` is reported.
pub open spec fn identifier_error(e: Error, v: crate::validation::ValidationError) -> bool {
    match v {
        crate::validation::ValidationError::InvalidIdentifier(value, reason) => e == (Error::InvalidIdentifier {
            kind: "identifier",
            value,
            reason,
        }),
        crate::validation::ValidationError::TooLong(value, _) => e == (Error::InvalidIdentifier {
            kind: "identifier",
            value,
            reason: REASON_TOO_LONG,
        }),
        crate::validation::ValidationError::Empty => e is InvalidIdentifier && e->InvalidIdentifier_value@.len() == 0
            && e->InvalidIdentifier_reason == REASON_EMPTY,
        crate::validation::ValidationError::Reserved(name) => e == (Error::ReservedName { name }),
    }
}

impl Error {
    /// How a failed identifier check is reported.
    pub fn from_identifier(v: crate::validation::ValidationError) -> (r: Error)
        ensures
            identifier_error(r, v),
    {
        match v {
            crate::validation::ValidationError::InvalidIdentifier(value, reason) => Error::InvalidIdentifier {
                kind: "identifier",
                value,
                reason,
            },
            crate::validation::ValidationError::TooLong(value, _) => Error::InvalidIdentifier {
                kind: "identifier",
                value,
                reason: REASON_TOO_LONG,
            },
            crate::validation::ValidationError::Empty => Error::InvalidIdentifier {
                kind: "identifier",
                value: String::new(),
                reason: REASON_EMPTY,
            },
            crate::validation::ValidationError::Reserved(name) => Error::ReservedName { name },
        }
    }

    /// How a failed schema check is reported.
    pub fn from_schema(v: crate::schema::ValidationError) -> (r: Error)
        ensures
            match v {
                crate::schema::ValidationError::MissingRequired(field) => r is MissingRequiredField
                    && r->MissingRequiredField_field == field && r->MissingRequiredField_collection@.len() == 0,
                crate::schema::ValidationError::TypeMismatch { field, expected, actual } => r == (Error::TypeMismatch {
                    field,
                    expected,
                    actual,
                }),
                crate::schema::ValidationError::UniqueViolation(_) => r is SchemaValidation,
            },
    {
        match v {
            crate::schema::ValidationError::MissingRequired(field) => Error::MissingRequiredField {
                collection: String::new(),
                field,
            },
            crate::schema::ValidationError::TypeMismatch { field, expected, actual } => Error::TypeMismatch {
                field,
                expected,
                actual,
            },
            crate::schema::ValidationError::UniqueViolation(field) => {
                let mut m = String::new();
                push_text(&mut m, "Unique constraint violated for field: ");
                push_text(&mut m, field.as_str());
                Error::SchemaValidation { collection: String::new(), message: m }
            },
        }
    }
}

} // verus!
