//! Base64 transfer of file contents.
//!
//! Encoding and decoding are done by the base64 crate with its standard
//! alphabet and padding; the library names the canonical encoding of a byte
//! sequence and states both directions of the correspondence, which makes
//! the transfer round trip provable.

use vstd::prelude::*;
use vstd::string::StringExecFns;
use crate::text::has_prefix;

verus! {

/// The canonical base64 text of a byte sequence: standard alphabet, with
/// padding.
pub uninterp spec fn base64_of(bytes: Seq<u8>) -> Seq<char>;

/// Relies on base64's STANDARD engine: encoding returns the canonical
/// base64 text of the input bytes, a function of the bytes alone.
#[verifier::external_body]
fn base64_encode(bytes: &Vec<u8>) -> (r: String)
    ensures
        r@ == base64_of(bytes@),
{
    base64::Engine::encode(&base64::engine::general_purpose::STANDARD, bytes)
}

/// Relies on base64's STANDARD engine: decoding is strict, so it succeeds
/// exactly on the canonical encoding of some byte sequence and returns those
/// bytes; the error case carries the crate's own message.
#[verifier::external_body]
fn base64_decode(text: &str) -> (r: Result<Vec<u8>, String>)
    ensures
        r matches Ok(b) ==> (text@ == base64_of(b@) && (forall|c: Seq<u8>|
            base64_of(c) == text@ ==> c == b@)),
        r is Err ==> (forall|c: Seq<u8>| base64_of(c) != text@),
{
    match base64::Engine::decode(&base64::engine::general_purpose::STANDARD, text.as_bytes()) {
        Ok(b) => Ok(b),
        Err(e) => Err(format!("{}", e)),
    }
}

/// The base64 payload for a file's bytes.
pub fn encode_file_base64(bytes: &Vec<u8>) -> (r: String)
    ensures
        r@ == base64_of(bytes@),
{
    base64_encode(bytes)
}

/// The bytes of a base64 payload: exactly the sequence whose canonical
/// encoding the payload is, or an error where the payload encodes nothing.
pub fn decode_file_base64(text: &str) -> (r: Result<Vec<u8>, String>)
    ensures
        r matches Ok(b) ==> (text@ == base64_of(b@) && (forall|c: Seq<u8>|
            base64_of(c) == text@ ==> c == b@)),
        r matches Err(m) ==> ((forall|c: Seq<u8>| base64_of(c) != text@) && has_prefix(
            m@,
            "failed to decode base64: "@,
        )),
{
    match base64_decode(text) {
        Result::Ok(b) => Result::Ok(b),
        Result::Err(e) => {
            let mut m = String::from_str("failed to decode base64: ");
            m.append(e.as_str());
            proof {
                assert(m@.take("failed to decode base64: "@.len() as int) =~= (
                "failed to decode base64: ")@);
            }
            Result::Err(m)
        },
    }
}

/// Encoding a file's bytes and decoding the payload again returns the bytes
/// unchanged: the base64 transfer round trip loses nothing.
pub fn base64_round_trip(bytes: &Vec<u8>) -> (r: Vec<u8>)
    ensures
        r@ == bytes@,
{
    let text = encode_file_base64(bytes);
    match decode_file_base64(text.as_str()) {
        Result::Ok(b) => b,
        Result::Err(_) => {
            proof {
                assert(base64_of(bytes@) == text@);
                assert(false);
            }
            Vec::new()
        },
    }
}

} // verus!
