//! The contents of a file as text.

use vstd::prelude::*;
use base64::Engine;

verus! {

/// The standard base64 encoding of a sequence of bytes, with padding.
pub uninterp spec fn base64_standard(bytes: Seq<u8>) -> Seq<char>;

/// The longest input whose encoding has a length that fits in `usize`.
pub open spec fn max_encodable() -> nat {
    (usize::MAX / 4 * 3) as nat
}

/// Calls `Engine::encode` of `base64::engine::general_purpose::STANDARD`.
/// The contract only gives the result its name: it depends on the bytes
/// alone. The call panics where the length of the encoding, four
/// characters for every three bytes or part of three, overflows `usize`.
#[verifier::external_body]
fn encode_standard(bytes: &[u8]) -> (r: String)
    requires
        bytes@.len() <= max_encodable(),
    ensures
        r@ == base64_standard(bytes@),
{
    base64::engine::general_purpose::STANDARD.encode(bytes)
}

/// The contents of a file in base64, or nothing where they are too long
/// for the encoding to fit in memory.
pub fn read_file_base64(bytes: &[u8]) -> (r: Option<String>)
    ensures
        bytes@.len() <= max_encodable() ==> r.deep_view() == Some(base64_standard(bytes@)),
        bytes@.len() > max_encodable() ==> r is None,
{
    if bytes.len() <= usize::MAX / 4 * 3 {
        Some(encode_standard(bytes))
    } else {
        None
    }
}

} // verus!
