//! The thumbnail of an image as the picker takes it: a PNG in a data URI.

use base64::Engine;
use vstd::prelude::*;

verus! {

/// The standard base64 encoding of `data`, with padding.
pub uninterp spec fn base64_standard(data: Seq<u8>) -> Seq<char>;

/// What every thumbnail starts with.
pub open spec fn data_uri_prefix() -> Seq<char> {
    "data:image/png;base64,"@
}

/// Whether `len` bytes can be encoded: the encoded text, four characters
/// for every three bytes or part of them, must fit in memory.
pub open spec fn encodable(len: nat) -> bool {
    4 * ((len + 2) / 3) <= isize::MAX
}

/// Calls `Engine::encode` of the crate `base64` on its engine
/// `BASE64_STANDARD`. The call is believed to return the standard padded
/// encoding of `data`, which depends on `data` alone. It panics where the
/// length of the encoding cannot be held, which `requires` leaves out.
#[verifier::external_body]
fn encode(data: &Vec<u8>) -> (text: String)
    requires
        encodable(data@.len()),
    ensures
        text@ == base64_standard(data@),
{
    base64::prelude::BASE64_STANDARD.encode(data)
}

fn fits(png: &Vec<u8>) -> (yes: bool)
    ensures
        yes == encodable(png@.len()),
{
    let len = png.len();
    let groups = if len % 3 == 0 {
        len / 3
    } else {
        len / 3 + 1
    };
    let most = isize::MAX as usize / 4;
    assert(groups == (len + 2) / 3);
    assert(4 * groups <= isize::MAX <==> groups <= most);
    groups <= most
}

/// The thumbnail for the encoded image `png`: its base64 text behind the
/// prefix of a PNG data URI. There is none for an image too large to
/// encode.
pub fn thumbnail_uri(png: &Vec<u8>) -> (uri: Option<String>)
    ensures
        match uri {
            Some(text) => encodable(png@.len()) && text@ == data_uri_prefix() + base64_standard(
                png@,
            ),
            None => !encodable(png@.len()),
        },
{
    if !fits(png) {
        return None;
    }
    let mut text = String::from_str("data:image/png;base64,");
    let encoded = encode(png);
    text.append(encoded.as_str());
    Some(text)
}

} // verus!
