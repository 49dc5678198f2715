//! The leaf of the container: a byte string that is either public or secret.
use vstd::prelude::*;
use vstd::utf8::{decode_utf8, encode_utf8, valid_utf8};

use crate::error::{ParseError, ParseErrorView, SerializeError};
use crate::io::parser::ParseResult;
use crate::util::{
    boxed_bytes, copy_bytes, push_be16, push_bytes, string_from_utf8, MAX_PAYLOAD_LENGTH,
};
use crate::wire::encode::{
    payload_bytes, payload_fits, text_bytes, text_field_bytes, text_fits, value_bytes, value_fits,
};

verus! {

/// The byte that opens a public value.
pub const VALUE_STARTER_BYTE: u8 = 0x00;

/// The byte that opens a key. Keys are written as public values.
pub const KEY_STARTER_BYTE: u8 = 0x00;

/// The byte that opens a secret value.
pub const SECRET_VALUE_STARTER_BYTE: u8 = 0x01;

/// How many bytes announce the length of a payload.
pub const VALUE_LENGTH_BYTES_LENGTH: usize = 2;

/// A [`Value`] as a mathematical value: its bytes and whether they are secret.
pub struct ValueView {
    pub bytes: Seq<u8>,
    pub is_secret: bool,
}

/// A byte string with a secrecy flag. The flag belongs to the value, not to
/// a key, and is written with it.
#[derive(Debug)]
pub struct Value {
    value: Box<[u8]>,
    is_secret: bool,
}

impl View for Value {
    type V = ValueView;

    closed spec fn view(&self) -> ValueView {
        ValueView { bytes: self.value@, is_secret: self.is_secret }
    }
}

impl Value {
    /// A value that holds a copy of `value`.
    pub fn new(value: &[u8], is_secret: bool) -> (v: Self)
        ensures
            v@ == (ValueView { bytes: value@, is_secret }),
    {
        Self { value: boxed_bytes(copy_bytes(value)), is_secret }
    }

    /// The value's bytes read as UTF-8 text.
    pub fn parse_string(self) -> (text: ParseResult<String>)
        ensures
            match text {
                Ok(s) => valid_utf8(self@.bytes) && s@ == decode_utf8(self@.bytes),
                Err(e) => !valid_utf8(self@.bytes) && e@ == ParseErrorView::EncodingError,
            },
    {
        match string_from_utf8(&self.value) {
            Some(s) => Ok(s),
            None => Err(ParseError::EncodingError),
        }
    }

    /// Whether the value is secret.
    pub fn is_secret(&self) -> (secret: bool)
        ensures
            secret == self@.is_secret,
    {
        self.is_secret
    }

    /// The value's bytes.
    pub fn inner(&self) -> (bytes: &[u8])
        ensures
            bytes@ == self@.bytes,
    {
        &self.value
    }

    /// The value's bytes, taken out of it.
    pub fn take(self) -> (bytes: Box<[u8]>)
        ensures
            bytes@ == self@.bytes,
    {
        self.value
    }

    /// The value as it is written: starter byte, two-byte length, payload.
    /// A payload of more than 65,535 bytes cannot be written.
    pub fn to_bytes(&self) -> (out: Result<Vec<u8>, SerializeError>)
        ensures
            match out {
                Ok(bytes) => value_fits(self@) && bytes@ == value_bytes(self@),
                Err(_) => !value_fits(self@),
            },
    {
        let mut bytes: Vec<u8> = Vec::new();
        match write_payload(&mut bytes, &self.value, self.is_secret) {
            Ok(()) => {
                assert(Seq::<u8>::empty() + value_bytes(self@) =~= value_bytes(self@));
                Ok(bytes)
            },
            Err(e) => Err(e),
        }
    }

    /// The text `text` as it is written when it stands as a key or a value.
    pub fn str_to_bytes(text: &str, is_secret: bool) -> (out: Result<Vec<u8>, SerializeError>)
        ensures
            match out {
                Ok(bytes) => payload_fits(encode_utf8(text@)) && bytes@ == payload_bytes(
                    encode_utf8(text@),
                    is_secret,
                ),
                Err(_) => !payload_fits(encode_utf8(text@)),
            },
    {
        let mut bytes: Vec<u8> = Vec::new();
        match write_payload(&mut bytes, text.as_bytes(), is_secret) {
            Ok(()) => {
                assert(Seq::<u8>::empty() + payload_bytes(encode_utf8(text@), is_secret)
                    =~= payload_bytes(encode_utf8(text@), is_secret));
                Ok(bytes)
            },
            Err(e) => Err(e),
        }
    }
}

impl TryFrom<Value> for String {
    type Error = ParseError;

    /// The value's bytes read as UTF-8 text.
    fn try_from(value: Value) -> (text: Result<String, ParseError>)
        ensures
            match text {
                Ok(s) => valid_utf8(value@.bytes) && s@ == decode_utf8(value@.bytes),
                Err(e) => !valid_utf8(value@.bytes) && e@ == ParseErrorView::EncodingError,
            },
    {
        value.parse_string()
    }
}

impl vstd::std_specs::convert::TryFromSpecImpl<Value> for String {
    /// What `try_from` gives is stated in its own contract, over views.
    open spec fn obeys_try_from_spec() -> bool {
        false
    }

    open spec fn try_from_spec(value: Value) -> Result<String, ParseError> {
        arbitrary()
    }
}

/// Appends `payload` as it is written: starter byte, two-byte length, the
/// bytes themselves.
pub(crate) fn push_payload(out: &mut Vec<u8>, payload: &[u8], is_secret: bool)
    requires
        payload_fits(payload@),
    ensures
        final(out)@ == old(out)@ + payload_bytes(payload@, is_secret),
{
    out.push(if is_secret { SECRET_VALUE_STARTER_BYTE } else { VALUE_STARTER_BYTE });
    push_be16(out, payload.len());
    push_bytes(out, payload);
    assert(out@ =~= old(out)@ + payload_bytes(payload@, is_secret));
}

/// Appends `payload` as it is written: starter byte, two-byte length, the
/// bytes themselves. Writes nothing when the payload is too long.
pub fn write_payload(out: &mut Vec<u8>, payload: &[u8], is_secret: bool) -> (done: Result<
    (),
    SerializeError,
>)
    ensures
        match done {
            Ok(_) => payload_fits(payload@) && final(out)@ == old(out)@ + payload_bytes(
                payload@,
                is_secret,
            ),
            Err(_) => !payload_fits(payload@) && final(out)@ == old(out)@,
        },
{
    if payload.len() > MAX_PAYLOAD_LENGTH {
        return Err(SerializeError::PayloadTooLong);
    }
    push_payload(out, payload, is_secret);
    Ok(())
}

/// Appends a text field as it is written: its name, then its text as a
/// public value. Writes nothing when the text is too long.
pub(crate) fn write_text_field(out: &mut Vec<u8>, name: &str, text: &str) -> (done: Result<
    (),
    SerializeError,
>)
    requires
        text_fits(name@),
    ensures
        match done {
            Ok(_) => text_fits(text@) && final(out)@ == old(out)@ + text_field_bytes(name@, text@),
            Err(_) => !text_fits(text@) && final(out)@ == old(out)@,
        },
{
    if text.as_bytes().len() > MAX_PAYLOAD_LENGTH {
        return Err(SerializeError::PayloadTooLong);
    }
    push_payload(out, name.as_bytes(), false);
    push_payload(out, text.as_bytes(), false);
    assert(out@ =~= old(out)@ + text_field_bytes(name@, text@));
    Ok(())
}

/// Appends a field of bytes as it is written: its name, then its bytes as
/// a secret value if `is_secret`, as a public one if not. Writes nothing
/// when the bytes are too many.
pub(crate) fn write_bytes_field(
    out: &mut Vec<u8>,
    name: &str,
    bytes: &[u8],
    is_secret: bool,
) -> (done: Result<(), SerializeError>)
    requires
        text_fits(name@),
    ensures
        match done {
            Ok(_) => payload_fits(bytes@) && final(out)@ == old(out)@ + (text_bytes(name@)
                + payload_bytes(bytes@, is_secret)),
            Err(_) => !payload_fits(bytes@) && final(out)@ == old(out)@,
        },
{
    if bytes.len() > MAX_PAYLOAD_LENGTH {
        return Err(SerializeError::PayloadTooLong);
    }
    push_payload(out, name.as_bytes(), false);
    push_payload(out, bytes, is_secret);
    assert(out@ =~= old(out)@ + (text_bytes(name@) + payload_bytes(bytes@, is_secret)));
    Ok(())
}

} // verus!
