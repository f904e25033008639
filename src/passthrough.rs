//! Pass-through codecs for data that is kept as it is: text to its UTF-8
//! bytes and back, and a digest that is the text itself. They seal nothing;
//! the vault's own protection is in `cipher`.
use crate::cipher::{string_from_utf8, CipherError};
use vstd::prelude::*;
use vstd::slice::slice_to_vec;
use vstd::utf8::*;

verus! {

/// The UTF-8 bytes of `data`, unchanged.
pub fn encrypt_data(data: &str) -> (r: Result<Vec<u8>, CipherError>)
    ensures
        r matches Ok(b) && b@ == encode_utf8(data@),
{
    Ok(slice_to_vec(data.as_bytes()))
}

/// The text whose UTF-8 bytes are `encrypted_data`;
/// `CipherError::EncodingError` where they are not valid UTF-8.
pub fn decrypt_data(encrypted_data: &[u8]) -> (r: Result<String, CipherError>)
    ensures
        r is Ok <==> valid_utf8(encrypted_data@),
        r matches Ok(s) ==> s@ == decode_utf8(encrypted_data@),
        r matches Err(e) ==> e == CipherError::EncodingError,
{
    match string_from_utf8(slice_to_vec(encrypted_data)) {
        Ok(s) => Ok(s),
        Err(_) => Err(CipherError::EncodingError),
    }
}

/// The text itself, standing in for a digest of it.
pub fn hash_data(data: &str) -> (r: String)
    ensures
        r@ == data@,
{
    data.to_owned()
}

} // verus!
