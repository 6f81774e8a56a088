//! The texts in which the signature and the certificate of a token travel.

use vstd::prelude::*;

use crate::bytes;
use crate::manage::token::DEVICE_SIGNATURE_LENGTH;

verus! {

/// The padded base64 text of a byte string.
pub uninterp spec fn base64(data: Seq<u8>) -> Seq<char>;

/// What padded base64 decodes to, or the text of the error.
pub uninterp spec fn base64_decoded(encoded: Seq<u8>) -> Result<Seq<u8>, Seq<char>>;

/// Calls `data_encoding::BASE64.encode`.
///
/// Trusted: the text depends on the bytes alone and is named [`base64`];
/// it takes four bytes for every three begun, and decoding it gives the bytes
/// back. The call may panic on longer inputs.
#[verifier::external_body]
fn base64_encode(data: &[u8]) -> (r: String)
    requires
        data@.len() * 512 <= usize::MAX,
    ensures
        r@ == base64(data@),
        bytes::utf8(r@).len() == (data@.len() + 2) / 3 * 4,
        decodes_to(bytes::utf8(r@), data@),
{
    data_encoding::BASE64.encode(data)
}

/// Calls `data_encoding::BASE64.decode`.
///
/// Trusted: the bytes, or the text of the error, depend on the encoded bytes
/// alone and are named [`base64_decoded`]. The call panics on longer inputs.
#[verifier::external_body]
fn base64_decode(encoded: &[u8]) -> (r: Result<Vec<u8>, String>)
    requires
        encoded@.len() * 8 <= usize::MAX,
    ensures
        match r {
            Ok(data) => base64_decoded(encoded@) matches Ok(found) && found == data@,
            Err(reason) => base64_decoded(encoded@) matches Err(found) && found == reason@,
        },
{
    match data_encoding::BASE64.decode(encoded) {
        Ok(data) => Ok(data),
        Err(error) => Err(error.to_string()),
    }
}

/// Whether an encoded byte string decodes to the data.
pub open spec fn decodes_to(encoded: Seq<u8>, data: Seq<u8>) -> bool {
    base64_decoded(encoded) matches Ok(found) && found == data
}

/// Whether an encoded byte string is short enough to be decoded.
pub open spec fn decodable(encoded: Seq<u8>) -> bool {
    encoded.len() * 8 <= usize::MAX
}

/// What is wrong with a text that is too long to decode.
pub const TOO_LONG: &'static str = "too long to decode";

/// What a text decodes to, or what is wrong with it.
pub open spec fn decoded(text: Seq<char>) -> Result<Seq<u8>, Seq<char>> {
    if decodable(bytes::utf8(text)) {
        base64_decoded(bytes::utf8(text))
    } else {
        Err(TOO_LONG@)
    }
}

/// Whether `r` is what a text decodes to.
pub open spec fn is_decoded(r: Result<Vec<u8>, String>, text: Seq<char>) -> bool {
    match r {
        Ok(data) => decoded(text) matches Ok(found) && found == data@,
        Err(reason) => decoded(text) matches Err(found) && found == reason@,
    }
}

/// Decode a text, unless it is too long.
fn decode_text(text: &str) -> (r: Result<Vec<u8>, String>)
    ensures
        is_decoded(r, text@),
{
    let encoded: &[u8] = text.as_bytes();
    if encoded.len() > usize::MAX / 8 {
        return Err(TOO_LONG.to_owned());
    }
    base64_decode(encoded)
}

/// Why a text is no signature.
#[derive(Debug, PartialEq, Eq)]
pub enum SignatureTextError {
    /// The text is not base64.
    Encoding {
        /// What is wrong with it.
        reason: String,
    },
    /// It holds another number of bytes than a signature has.
    Length {
        /// The number of bytes.
        found: usize,
    },
}

/// What a text is as a signature.
pub open spec fn signature_of(text: Seq<char>) -> Option<Seq<u8>> {
    match decoded(text) {
        Ok(data) if data.len() == DEVICE_SIGNATURE_LENGTH => Some(data),
        _ => None,
    }
}

/// The text of a signature.
pub fn signature_text(signature: &[u8; DEVICE_SIGNATURE_LENGTH]) -> (r: String)
    ensures
        r@ == base64(signature@),
        signature_of(r@) == Some(signature@),
{
    base64_encode(signature.as_slice())
}

/// The signature that a text stands for.
pub fn signature_from_text(text: &str) -> (r: Result<
    [u8; DEVICE_SIGNATURE_LENGTH],
    SignatureTextError,
>)
    ensures
        match r {
            Ok(signature) => signature_of(text@) == Some(signature@),
            Err(SignatureTextError::Encoding { reason }) => decoded(text@) matches Err(why) && why
                == reason@,
            Err(SignatureTextError::Length { found }) => decoded(text@) matches Ok(data)
                && data.len() == found && found != DEVICE_SIGNATURE_LENGTH,
        },
{
    let data: Vec<u8> = match decode_text(text) {
        Ok(data) => data,
        Err(reason) => {
            return Err(SignatureTextError::Encoding { reason });
        },
    };
    if data.len() != DEVICE_SIGNATURE_LENGTH {
        return Err(SignatureTextError::Length { found: data.len() });
    }
    let mut signature: [u8; DEVICE_SIGNATURE_LENGTH] = [0u8; DEVICE_SIGNATURE_LENGTH];
    let mut i: usize = 0;
    while i < DEVICE_SIGNATURE_LENGTH
        invariant
            i <= DEVICE_SIGNATURE_LENGTH == data@.len(),
            forall|k: int| 0 <= k < i ==> signature@[k] == data@[k],
        decreases DEVICE_SIGNATURE_LENGTH - i,
    {
        signature[i] = data[i];
        i += 1;
    }
    assert(signature@ =~= data@);
    Ok(signature)
}

/// The text of a certificate.
pub fn cert_text(cert_der: &[u8]) -> (r: String)
    requires
        cert_der@.len() * 512 <= usize::MAX,
    ensures
        r@ == base64(cert_der@),
        decoded(r@) matches Ok(found) && found == cert_der@,
{
    base64_encode(cert_der)
}

/// The certificate that a text stands for, or why it stands for none.
pub fn cert_from_text(text: &str) -> (r: Result<Vec<u8>, String>)
    ensures
        is_decoded(r, text@),
{
    decode_text(text)
}

/// A text stands for a signature exactly where it decodes to sixty-four bytes, and is
/// decoded exactly where it is short enough.
pub proof fn law_a_signature_has_sixty_four_bytes(text: Seq<char>, signature: Seq<u8>)
    ensures
        signature_of(text) == Some(signature) <==> decoded(text) == Ok::<Seq<u8>, Seq<char>>(
            signature,
        ) && signature.len() == 64,
        bytes::utf8(text).len() * 8 <= usize::MAX ==> decoded(text) == base64_decoded(
            bytes::utf8(text),
        ),
        bytes::utf8(text).len() * 8 > usize::MAX ==> decoded(text) is Err,
{
}

/// A text is decoded to the data, or refused for the reason, that decoding its bytes
/// gives.
pub proof fn law_a_text_is_decoded_or_refused(
    r: Result<Vec<u8>, String>,
    text: Seq<char>,
    encoded: Seq<u8>,
    data: Seq<u8>,
)
    ensures
        is_decoded(r, text) ==> (r matches Ok(found) ==> decoded(text) == Ok::<
            Seq<u8>,
            Seq<char>,
        >(found@)),
        is_decoded(r, text) ==> (r matches Err(why) ==> decoded(text) == Err::<
            Seq<u8>,
            Seq<char>,
        >(why@)),
        is_decoded(r, text) ==> (r is Ok <==> decoded(text) is Ok),
        decodes_to(encoded, data) <==> base64_decoded(encoded) == Ok::<Seq<u8>, Seq<char>>(data),
{
}

} // verus!
