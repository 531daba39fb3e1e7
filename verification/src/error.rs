//! The closed taxonomy of encode and decode failures.
use vstd::prelude::*;

verus! {

/// Everything that can go wrong while encoding a value into a term tree or
/// decoding a term tree back into a value.
///
/// Every shape mismatch between an expected target kind and the actual node
/// kind is reported as the specific member below; there is no best-effort
/// coercion.  `Message` carries protocol-level custom errors, `DecodeError`
/// carries a malformed-wire report surfaced unchanged from the external term
/// library, and `EncodeError` carries a writer failure.
#[derive(Clone, Debug, PartialEq)]
pub enum Error {
    Message(String),
    DecodeError(String),
    EncodeError(String),
    TypeHintsRequired,
    ExpectedBoolean,
    InvalidBoolean,
    ExpectedFixInteger,
    ExpectedFloat,
    ExpectedChar,
    ExpectedBinary,
    Utf8DecodeError,
    ExpectedNil,
    ExpectedList,
    ExpectedTuple,
    WrongTupleLength,
    ExpectedMap,
    ExpectedAtom,
    IntegerConvertError,
    FloatConvertError,
    TooManyItems,
    MisSizedVariantTuple,
    ExpectedAtomOrTuple,
}

/// The mathematical model of an [`Error`].
#[verifier::ext_equal]
pub enum ErrorV {
    Message(Seq<char>),
    DecodeError(Seq<char>),
    EncodeError(Seq<char>),
    TypeHintsRequired,
    ExpectedBoolean,
    InvalidBoolean,
    ExpectedFixInteger,
    ExpectedFloat,
    ExpectedChar,
    ExpectedBinary,
    Utf8DecodeError,
    ExpectedNil,
    ExpectedList,
    ExpectedTuple,
    WrongTupleLength,
    ExpectedMap,
    ExpectedAtom,
    IntegerConvertError,
    FloatConvertError,
    TooManyItems,
    MisSizedVariantTuple,
    ExpectedAtomOrTuple,
}

impl View for Error {
    type V = ErrorV;

    open spec fn view(&self) -> ErrorV {
        match self {
            Error::Message(msg) => ErrorV::Message(msg@),
            Error::DecodeError(msg) => ErrorV::DecodeError(msg@),
            Error::EncodeError(msg) => ErrorV::EncodeError(msg@),
            Error::TypeHintsRequired => ErrorV::TypeHintsRequired,
            Error::ExpectedBoolean => ErrorV::ExpectedBoolean,
            Error::InvalidBoolean => ErrorV::InvalidBoolean,
            Error::ExpectedFixInteger => ErrorV::ExpectedFixInteger,
            Error::ExpectedFloat => ErrorV::ExpectedFloat,
            Error::ExpectedChar => ErrorV::ExpectedChar,
            Error::ExpectedBinary => ErrorV::ExpectedBinary,
            Error::Utf8DecodeError => ErrorV::Utf8DecodeError,
            Error::ExpectedNil => ErrorV::ExpectedNil,
            Error::ExpectedList => ErrorV::ExpectedList,
            Error::ExpectedTuple => ErrorV::ExpectedTuple,
            Error::WrongTupleLength => ErrorV::WrongTupleLength,
            Error::ExpectedMap => ErrorV::ExpectedMap,
            Error::ExpectedAtom => ErrorV::ExpectedAtom,
            Error::IntegerConvertError => ErrorV::IntegerConvertError,
            Error::FloatConvertError => ErrorV::FloatConvertError,
            Error::TooManyItems => ErrorV::TooManyItems,
            Error::MisSizedVariantTuple => ErrorV::MisSizedVariantTuple,
            Error::ExpectedAtomOrTuple => ErrorV::ExpectedAtomOrTuple,
        }
    }
}

/// The model of a fallible result: both outcomes are taken to their models.
pub open spec fn result_view<T: View, E: View>(r: Result<T, E>) -> Result<T::V, E::V> {
    match r {
        Ok(t) => Ok(t@),
        Err(e) => Err(e@),
    }
}

/// The fixed text that [`Error::description`] returns for each member.
pub open spec fn description_of(e: ErrorV) -> Seq<char> {
    match e {
        ErrorV::Message(msg) => msg,
        ErrorV::DecodeError(_) => "Decode error"@,
        ErrorV::EncodeError(msg) => msg,
        ErrorV::TypeHintsRequired => "Type Hints are required for deserializing eetf"@,
        ErrorV::ExpectedBoolean => "Expected boolean, got something else"@,
        ErrorV::InvalidBoolean => "Invalid boolean"@,
        ErrorV::ExpectedFixInteger => "Expected fix integer, got something else"@,
        ErrorV::ExpectedFloat => "Expected float integer, got something else"@,
        ErrorV::ExpectedChar => "Expected string of one character, got something else"@,
        ErrorV::ExpectedBinary => "Expected binary, got something else"@,
        ErrorV::Utf8DecodeError => "Error decoding UTF8 from binary"@,
        ErrorV::ExpectedNil => "Expected nil, got something else"@,
        ErrorV::ExpectedList => "Expected list, got something else"@,
        ErrorV::ExpectedTuple => "Expected tuple, got something else"@,
        ErrorV::WrongTupleLength => "Tuple was wrong length"@,
        ErrorV::ExpectedMap => "Expected map, got something else"@,
        ErrorV::ExpectedAtom => "Expected atom, got something else"@,
        ErrorV::IntegerConvertError => "Could not convert integer without overflow"@,
        ErrorV::FloatConvertError => "Could not convert float without overflow"@,
        ErrorV::TooManyItems => "Too many items when deserializing sequence"@,
        ErrorV::MisSizedVariantTuple => "Was expecting a tuple of an atom and element"@,
        ErrorV::ExpectedAtomOrTuple => "Was expecting an atom or a tuple"@,
    }
}

impl Error {
    /// A short, human-readable account of the failure.
    pub fn description(&self) -> (r: &str)
        ensures
            r@ == description_of(self@),
    {
        match self {
            Error::Message(msg) => msg.as_str(),
            Error::DecodeError(_) => "Decode error",
            Error::EncodeError(msg) => msg.as_str(),
            Error::TypeHintsRequired => "Type Hints are required for deserializing eetf",
            Error::ExpectedBoolean => "Expected boolean, got something else",
            Error::InvalidBoolean => "Invalid boolean",
            Error::ExpectedFixInteger => "Expected fix integer, got something else",
            Error::ExpectedFloat => "Expected float integer, got something else",
            Error::ExpectedChar => "Expected string of one character, got something else",
            Error::ExpectedBinary => "Expected binary, got something else",
            Error::Utf8DecodeError => "Error decoding UTF8 from binary",
            Error::ExpectedNil => "Expected nil, got something else",
            Error::ExpectedList => "Expected list, got something else",
            Error::ExpectedTuple => "Expected tuple, got something else",
            Error::WrongTupleLength => "Tuple was wrong length",
            Error::ExpectedMap => "Expected map, got something else",
            Error::ExpectedAtom => "Expected atom, got something else",
            Error::IntegerConvertError => "Could not convert integer without overflow",
            Error::FloatConvertError => "Could not convert float without overflow",
            Error::TooManyItems => "Too many items when deserializing sequence",
            Error::MisSizedVariantTuple => "Was expecting a tuple of an atom and element",
            Error::ExpectedAtomOrTuple => "Was expecting an atom or a tuple",
        }
    }
}

} // verus!
