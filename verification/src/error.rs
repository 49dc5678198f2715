//! What can go wrong when a container is read, written or unsealed.
use vstd::prelude::*;

verus! {

/// Why a byte string was not accepted as a container, or as a part of one.
#[derive(Debug, PartialEq, Eq)]
pub enum ParseError {
    /// The first eight bytes are not the magic number.
    InvalidMagicNumber,
    /// A version slot is there but malformed. The reader never raises
    /// this: it takes the version from the four bytes that open the header,
    /// and any four bytes are a version.
    InvalidVersionNumber,
    /// A framing byte is none of the starters that may stand at its place.
    UnexpectedStarterByte,
    /// The input ended where a framing byte or a fixed-length field was due.
    UnexpectedEndOfFile,
    /// A required field, named here, is absent.
    MissingRequiredField(String),
    /// A field that must be public, named here, was marked secret.
    ForbiddenSecretField(String),
    /// A field that must be secret, named here, was marked public.
    ForbiddenNonSecretField(String),
    /// A payload announces more bytes than are left: first what is left,
    /// then what was announced.
    UnexpectedEndOfValue(usize, usize),
    /// A payload that must be text is not valid UTF-8.
    EncodingError,
}

/// [`ParseError`] as a mathematical value.
pub enum ParseErrorView {
    InvalidMagicNumber,
    InvalidVersionNumber,
    UnexpectedStarterByte,
    UnexpectedEndOfFile,
    MissingRequiredField(Seq<char>),
    ForbiddenSecretField(Seq<char>),
    ForbiddenNonSecretField(Seq<char>),
    UnexpectedEndOfValue(int, int),
    EncodingError,
}

impl View for ParseError {
    type V = ParseErrorView;

    open spec fn view(&self) -> ParseErrorView {
        match self {
            ParseError::InvalidMagicNumber => ParseErrorView::InvalidMagicNumber,
            ParseError::InvalidVersionNumber => ParseErrorView::InvalidVersionNumber,
            ParseError::UnexpectedStarterByte => ParseErrorView::UnexpectedStarterByte,
            ParseError::UnexpectedEndOfFile => ParseErrorView::UnexpectedEndOfFile,
            ParseError::MissingRequiredField(name) => ParseErrorView::MissingRequiredField(name@),
            ParseError::ForbiddenSecretField(name) => ParseErrorView::ForbiddenSecretField(name@),
            ParseError::ForbiddenNonSecretField(name) => ParseErrorView::ForbiddenNonSecretField(
                name@,
            ),
            ParseError::UnexpectedEndOfValue(left, needed) => ParseErrorView::UnexpectedEndOfValue(
                *left as int,
                *needed as int,
            ),
            ParseError::EncodingError => ParseErrorView::EncodingError,
        }
    }
}

/// Why a cipher did not produce an output.
#[derive(Debug, PartialEq, Eq)]
pub enum CipherError {
    /// The cipher needs an extra, named here, that the call did not bring.
    MissingRequiredExtra(String),
    /// The cipher itself refused: a key or nonce of the wrong length, an
    /// input too long, or a ciphertext that does not authenticate.
    EncryptionError,
}

/// [`CipherError`] as a mathematical value.
pub enum CipherErrorView {
    MissingRequiredExtra(Seq<char>),
    EncryptionError,
}

impl View for CipherError {
    type V = CipherErrorView;

    open spec fn view(&self) -> CipherErrorView {
        match self {
            CipherError::MissingRequiredExtra(name) => CipherErrorView::MissingRequiredExtra(name@),
            CipherError::EncryptionError => CipherErrorView::EncryptionError,
        }
    }
}

/// The name under which the encrypting side knows [`CipherError`].
pub type EncryptError = CipherError;

/// Why a container, or a part of one, cannot be written.
#[derive(Debug, PartialEq, Eq, Clone, Copy)]
pub enum SerializeError {
    /// A key or a value is longer than the 65,535 bytes that its two-byte
    /// length can announce.
    PayloadTooLong,
}

} // verus!
