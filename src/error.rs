//! The errors of the library.
use vstd::prelude::*;

verus! {

/// A field of a record could not be rendered to the store's text form.
#[derive(Debug, Clone)]
pub enum EncoderError {
    /// The bytes given for the named field are not UTF-8.
    InvalidUtf8(String),
    /// A name or value is too long for the store's payload framing.
    TooLong(String),
}

/// Stored data is missing or malformed for a field that a record needs.
#[derive(Debug, Clone)]
pub enum DecoderError {
    /// The named field is absent from the stored attributes.
    Missing(String),
    /// The named field holds text that does not read as the field's type.
    Invalid(String),
}

impl EncoderError {
    pub open spec fn is_invalid_utf8(&self, field: Seq<char>) -> bool {
        self matches EncoderError::InvalidUtf8(f) && f@ == field
    }

    pub open spec fn is_too_long(&self, field: Seq<char>) -> bool {
        self matches EncoderError::TooLong(f) && f@ == field
    }
}

impl DecoderError {
    pub open spec fn is_missing(&self, field: Seq<char>) -> bool {
        self matches DecoderError::Missing(f) && f@ == field
    }

    pub open spec fn is_invalid(&self, field: Seq<char>) -> bool {
        self matches DecoderError::Invalid(f) && f@ == field
    }
}

#[derive(Debug, Clone)]
pub enum OhmerError {
    /// The operation requires the object to have an id, but it was never saved.
    NotSaved,
    /// Error communicating with the server; holds the server's message.
    RedisError(String),
    /// Error encoding the object.
    EncoderError(EncoderError),
    /// Error decoding the object.
    DecoderError,
    /// A unique field has no value. The field name is returned.
    UnknownIndex(String),
    /// A unique field value is already in use. The field name is returned.
    UniqueIndexViolation(String),
    /// A command token is not valid UTF-8; holds its bytes.
    CommandError(Vec<u8>),
}

impl From<EncoderError> for OhmerError {
    fn from(e: EncoderError) -> (r: OhmerError)
        ensures
            r == OhmerError::EncoderError(e),
    {
        OhmerError::EncoderError(e)
    }
}

impl vstd::std_specs::convert::FromSpecImpl<EncoderError> for OhmerError {
    open spec fn obeys_from_spec() -> bool {
        true
    }

    open spec fn from_spec(e: EncoderError) -> OhmerError {
        OhmerError::EncoderError(e)
    }
}

impl From<DecoderError> for OhmerError {
    fn from(e: DecoderError) -> (r: OhmerError)
        ensures
            r == OhmerError::DecoderError,
    {
        OhmerError::DecoderError
    }
}

impl vstd::std_specs::convert::FromSpecImpl<DecoderError> for OhmerError {
    open spec fn obeys_from_spec() -> bool {
        true
    }

    open spec fn from_spec(e: DecoderError) -> OhmerError {
        OhmerError::DecoderError
    }
}

} // verus!
