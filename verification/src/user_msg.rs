//! The payload that applications put into messages.

use vstd::prelude::*;
use vstd::string::StrSliceExecFns;
use vstd::utf8::{decode_utf8, encode_utf8, valid_utf8};
use crate::errors::Error;

verus! {

/// A payload type of the application. The library never looks inside a
/// payload: it only turns it into bytes and bytes into it.
pub trait UserMsg: core::fmt::Debug + Clone + PartialEq + Send + View {
    /// The bytes that stand for a payload, or why the payload cannot be
    /// written.
    spec fn encoding(payload: Self::V) -> Result<Seq<u8>, Error>;

    /// The payload that bytes stand for, or why they stand for none.
    spec fn decoding(bytes: Seq<u8>) -> Result<Self::V, Error>;

    /// Writes the payload as bytes.
    fn to_bytes(self) -> (r: Result<Vec<u8>, Error>)
        ensures
            match r {
                Ok(bytes) => Self::encoding(self@) == Ok::<Seq<u8>, Error>(bytes@),
                Err(e) => Self::encoding(self@) == Err::<Seq<u8>, Error>(e),
            },
    ;

    /// Reads a payload from bytes.
    fn from_bytes(bytes: Vec<u8>) -> (r: Result<Self, Error>)
        ensures
            match r {
                Ok(payload) => Self::decoding(bytes@) == Ok::<Self::V, Error>(payload@),
                Err(e) => Self::decoding(bytes@) == Err::<Self::V, Error>(e),
            },
    ;
}

/// What was written can be read back: the law that a payload type has to
/// obey for messages that carry it to survive the wire.
pub open spec fn round_trips<T: UserMsg>(payload: T::V) -> bool {
    match T::encoding(payload) {
        Ok(bytes) => T::decoding(bytes) == Ok::<T::V, Error>(payload),
        Err(_) => true,
    }
}

/// Raw bytes are a payload: they stand for themselves.
impl UserMsg for Vec<u8> {
    open spec fn encoding(payload: Seq<u8>) -> Result<Seq<u8>, Error> {
        Ok(payload)
    }

    open spec fn decoding(bytes: Seq<u8>) -> Result<Seq<u8>, Error> {
        Ok(bytes)
    }

    fn to_bytes(self) -> (r: Result<Vec<u8>, Error>) {
        Ok(self)
    }

    fn from_bytes(bytes: Vec<u8>) -> (r: Result<Vec<u8>, Error>) {
        Ok(bytes)
    }
}

/// `String::from_utf8` of the standard library: the text that the bytes
/// encode, where they are well-formed UTF-8, and nothing where they are
/// not.
#[verifier::external_body]
fn text_from_utf8(bytes: Vec<u8>) -> (text: Option<String>)
    ensures
        match text {
            Some(text) => valid_utf8(bytes@) && text@ == decode_utf8(bytes@),
            None => !valid_utf8(bytes@),
        },
{
    match String::from_utf8(bytes) {
        Ok(text) => Some(text),
        Err(_) => None,
    }
}

/// Text is a payload: it travels as its UTF-8 encoding.
impl UserMsg for String {
    open spec fn encoding(payload: Seq<char>) -> Result<Seq<u8>, Error> {
        Ok(encode_utf8(payload))
    }

    open spec fn decoding(bytes: Seq<u8>) -> Result<Seq<char>, Error> {
        if valid_utf8(bytes) {
            Ok(decode_utf8(bytes))
        } else {
            Err(Error::Payload)
        }
    }

    fn to_bytes(self) -> (r: Result<Vec<u8>, Error>) {
        Ok(self.as_str().as_bytes_vec())
    }

    fn from_bytes(bytes: Vec<u8>) -> (r: Result<String, Error>) {
        match text_from_utf8(bytes) {
            Some(text) => Ok(text),
            None => Err(Error::Payload),
        }
    }
}

/// Raw bytes obey the law of payloads.
pub proof fn lemma_bytes_round_trip(payload: Seq<u8>)
    ensures
        round_trips::<Vec<u8>>(payload),
{
}

/// Text obeys the law of payloads.
pub proof fn lemma_text_round_trip(payload: Seq<char>)
    ensures
        round_trips::<String>(payload),
{
    vstd::utf8::encode_utf8_valid_utf8(payload);
    vstd::utf8::encode_utf8_decode_utf8(payload);
}

} // verus!
