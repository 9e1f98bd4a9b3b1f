//! Covers as the helper hands them over (`data:` URIs with base64 images):
//! the payload, decoded, and scaled down when larger than asked.

use vstd::prelude::*;
use crate::text::{chars_of, first_index_of, lemma_first_index_of, find_char, slice_chars, string_of};
use crate::tray::{decoded_rgba, decode_rgba};

verus! {

/// The second comma-separated piece of a text (`split(",").nth(1)`): what
/// follows the first comma, up to the next one.
pub open spec fn payload_spec(uri: Seq<char>) -> Option<Seq<char>> {
    match first_index_of(uri, ',') {
        None => None,
        Some(k) => {
            let rest = uri.skip(k + 1);
            match first_index_of(rest, ',') {
                Some(j) => Some(rest.take(j)),
                None => Some(rest),
            }
        },
    }
}

/// The base64 payload of a `data:` URI.
pub fn data_uri_payload(uri: &str) -> (r: Option<String>)
    ensures
        r matches Some(p) ==> payload_spec(uri@) == Some(p@),
        r is None ==> payload_spec(uri@) is None,
{
    let c = chars_of(uri);
    proof {
        lemma_first_index_of(c@, ',');
    }
    let k = match find_char(c.as_slice(), ',') {
        Some(k) => k,
        None => return None,
    };
    assert(k < c.len());
    let rest = slice_chars(c.as_slice(), k + 1, c.len());
    assert(rest@ == uri@.skip(k + 1));
    proof {
        lemma_first_index_of(rest@, ',');
    }
    match find_char(rest.as_slice(), ',') {
        Some(j) => {
            let piece = slice_chars(rest.as_slice(), 0, j);
            assert(piece@ == rest@.take(j as int));
            Some(string_of(piece.as_slice()))
        },
        None => Some(string_of(rest.as_slice())),
    }
}

/// What the standard base64 engine decodes a text to, or `None` when the
/// text is not canonical standard base64.
pub uninterp spec fn base64_standard(text: Seq<char>) -> Option<Seq<u8>>;

/// `base64::engine::general_purpose::STANDARD.decode`. The contract only
/// names the result.
#[verifier::external_body]
fn base64_decode(text: &str) -> (r: Option<Vec<u8>>)
    ensures
        r matches Some(b) ==> base64_standard(text@) == Some(b@),
        r is None ==> base64_standard(text@) is None,
{
    match base64::Engine::decode(&base64::engine::general_purpose::STANDARD, text) {
        Ok(b) => Some(b),
        Err(_) => None,
    }
}

/// The width and height `image` decodes the bytes to, if it reads them.
pub uninterp spec fn decoded_size(bytes: Seq<u8>) -> Option<(u32, u32)>;

/// `image::load_from_memory`, then `width` and `height`. The contract only
/// names the result.
#[verifier::external_body]
fn image_size(bytes: &[u8]) -> (r: Option<(u32, u32)>)
    ensures
        r == decoded_size(bytes@),
{
    match image::load_from_memory(bytes) {
        Ok(img) => Some((img.width(), img.height())),
        Err(_) => None,
    }
}

/// The RGBA8 samples of the decoded image scaled down by `thumbnail` to fit
/// a square of `max_side`, with their width and height.
pub uninterp spec fn thumbnail_rgba(bytes: Seq<u8>, max_side: u32) -> Option<(u32, u32, Seq<u8>)>;

/// `image::load_from_memory`, then `thumbnail(max_side, max_side)` and
/// `to_rgba8`. The contract only names the result.
#[verifier::external_body]
fn scaled_rgba(bytes: &[u8], max_side: u32) -> (r: Option<(u32, u32, Vec<u8>)>)
    ensures
        r matches Some(x) ==> thumbnail_rgba(bytes@, max_side) == Some((x.0, x.1, x.2@)),
        r is None ==> thumbnail_rgba(bytes@, max_side) is None,
{
    match image::load_from_memory(bytes) {
        Ok(img) => {
            let rgba = img.thumbnail(max_side, max_side).to_rgba8();
            let (w, h) = rgba.dimensions();
            Some((w, h, rgba.into_raw()))
        },
        Err(_) => None,
    }
}

/// Whether an image of `w`×`h` is larger than a cover is ever drawn.
pub fn needs_thumbnail(w: u32, h: u32, max_side: u32) -> (r: bool)
    ensures
        r == ((if w > h { w } else { h }) > max_side),
{
    let m = if w > h { w } else { h };
    m > max_side
}

/// The pixels a `data:` URI's cover decodes to, scaled down to `max_side`
/// when larger.
pub open spec fn artwork_spec(uri: Seq<char>, max_side: u32) -> Option<(u32, u32, Seq<u8>)> {
    match payload_spec(uri) {
        None => None,
        Some(p) => match base64_standard(p) {
            None => None,
            Some(b) => match decoded_size(b) {
                None => None,
                Some((w, h)) => if (if w > h { w } else { h }) > max_side {
                    thumbnail_rgba(b, max_side)
                } else {
                    decoded_rgba(b)
                },
            },
        },
    }
}

/// A cover's width, height and RGBA8 samples, from the helper's `data:` URI.
pub fn decode_artwork(data_uri: &str, max_side: u32) -> (r: Option<(u32, u32, Vec<u8>)>)
    ensures
        r matches Some(x) ==> artwork_spec(data_uri@, max_side) == Some((x.0, x.1, x.2@)),
        r is None ==> artwork_spec(data_uri@, max_side) is None,
{
    let p = match data_uri_payload(data_uri) {
        Some(p) => p,
        None => return None,
    };
    let bytes = match base64_decode(p.as_str()) {
        Some(b) => b,
        None => return None,
    };
    let (w, h) = match image_size(bytes.as_slice()) {
        Some(s) => s,
        None => return None,
    };
    if needs_thumbnail(w, h, max_side) {
        scaled_rgba(bytes.as_slice(), max_side)
    } else {
        decode_rgba(bytes.as_slice())
    }
}

} // verus!
