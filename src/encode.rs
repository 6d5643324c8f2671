//! The image payload sent to the model: a JPEG as a Base64 data URI.
use vstd::prelude::*;

use base64::Engine;

use crate::text::push_str;

verus! {

pub const JPEG_DATA_URI_PREFIX: &'static str = "data:image/jpeg;base64,";

/// Padded Base64 (standard alphabet) of `bytes`.
pub uninterp spec fn base64_standard(bytes: Seq<u8>) -> Seq<char>;

/// Relies on base64's `STANDARD` engine `encode`: padded standard-alphabet Base64, four
/// characters for each started group of three bytes. It panics only where that length
/// overflows `usize`, which the bound on the input rules out.
#[verifier::external_body]
fn base64_encode(bytes: &Vec<u8>) -> (r: String)
    requires
        bytes@.len() <= usize::MAX / 2,
    ensures
        r@ == base64_standard(bytes@),
        r@.len() == 4 * ((bytes@.len() + 2) / 3),
{
    base64::engine::general_purpose::STANDARD.encode(bytes)
}

/// The data URI that embeds the JPEG image `jpeg`.
pub fn jpeg_data_uri(jpeg: &Vec<u8>) -> (r: String)
    requires
        jpeg@.len() <= usize::MAX / 2,
    ensures
        r@ == JPEG_DATA_URI_PREFIX@ + base64_standard(jpeg@),
{
    let encoded = base64_encode(jpeg);
    let mut r = String::new();
    push_str(&mut r, JPEG_DATA_URI_PREFIX);
    push_str(&mut r, encoded.as_str());
    r
}

} // verus!
