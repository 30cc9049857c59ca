//! Rendering a 32-byte identifier as bech32m text with the prefix `token_`.

use vstd::prelude::*;
use crate::derivation::Hash32;

verus! {

/// Raised only if the bech32m encoder rejects its payload; for a 32-byte
/// payload under the fixed `token_` prefix this never happens.
#[derive(Clone, Copy, Debug, PartialEq, Eq, Structural)]
pub struct EncodingError;

/// The bech32m encoding of a byte payload under the prefix `token_`.
pub uninterp spec fn bech32m_token_text(data: Seq<u8>) -> Seq<char>;

/// Relies on `bech32::encode` with the `Bech32m` checksum and the prefix
/// `token_` parsed by `bech32::Hrp::parse`: the output is the lowercase
/// prefix, the separator `1`, then data and checksum characters — in all
/// `13 + ceil(8 * len / 5)` characters depending on the payload bytes alone.
/// Encoding fails only when that count exceeds the checksum's 1023-character
/// code length, so never for a 32-byte payload.
#[verifier::external_body]
fn bech32m_encode_token(data: &Vec<u8>) -> (r: Option<String>)
    ensures
        r matches Some(s) ==> s@ == bech32m_token_text(data@),
        r matches Some(s) ==> s@.len() == 13 + (8 * data@.len() + 4) / 5,
        r matches Some(s) ==> s@.subrange(0, 7) == "token_1"@,
        data@.len() == 32 ==> r is Some,
{
    match bech32::Hrp::parse("token_") {
        Ok(hrp) => bech32::encode::<bech32::Bech32m>(hrp, data.as_slice()).ok(),
        Err(_) => None,
    }
}

/// Renders a token ID as a 65-character bech32m string that starts with
/// `token_1`. The encoder accepts every 32-byte payload, so this always
/// returns `Ok`; the error branch only models the boundary as fallible.
pub fn format_token_id(id: &Hash32) -> (r: Result<String, EncodingError>)
    ensures
        r is Ok,
        r matches Ok(s) ==> s@ == bech32m_token_text(id@) && s@.len() == 65 && s@.subrange(0, 7)
            == "token_1"@,
{
    let bytes = id.render_to_binary();
    match bech32m_encode_token(&bytes) {
        Some(s) => Ok(s),
        None => Err(EncodingError),
    }
}

} // verus!
