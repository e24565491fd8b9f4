//! What goes over the search interface: the query and the images found.
use vstd::prelude::*;
use vstd::utf8::encode_utf8;

verus! {

/// A search: the text to look for and the images to look alike.
#[derive(Debug)]
pub struct SearchParams {
    pub q: String,
    pub referenced_images: Vec<String>,
}

/// The images found, nearest first.
#[derive(Debug)]
pub struct SearchResponse {
    pub images: Vec<ImageReference>,
}

/// An image by key and path.
#[derive(Debug)]
pub struct ImageReference {
    pub id: String,
    pub image_path: String,
}

/// An image with its embedding.
#[derive(Debug)]
pub struct ImageReferenceEmbedding {
    pub id: String,
    pub image_path: String,
    pub embedding: Vec<i32>,
}

/// An image with its distance to a query, in millionths.
#[derive(Debug)]
pub struct ImageReferenceScore {
    pub id: String,
    pub image_path: String,
    pub score: i32,
}

/// A path as the store returns it.
#[derive(Debug)]
pub struct ImagePathResult {
    pub image_path: String,
}

/// Bytes that stand for themselves in a percent-encoded text: ASCII
/// letters and digits, `-`, `.`, `_` and `~`.
pub open spec fn is_unreserved(b: u8) -> bool {
    (0x30 <= b <= 0x39) || (0x41 <= b <= 0x5a) || (0x61 <= b <= 0x7a) || b == 0x2d || b == 0x2e
        || b == 0x5f || b == 0x7e
}

/// The upper-case hexadecimal digit for a value below sixteen.
pub open spec fn hex_digit(d: u8) -> char {
    if d < 10 {
        ((0x30 + d) as u8) as char
    } else {
        ((0x41 - 10 + d) as u8) as char
    }
}

/// One byte percent-encoded: itself when unreserved, else `%` and its two
/// hexadecimal digits.
pub open spec fn encoded_byte(b: u8) -> Seq<char> {
    if is_unreserved(b) {
        seq![b as char]
    } else {
        seq!['%', hex_digit(b / 16), hex_digit(b % 16)]
    }
}

/// A byte sequence percent-encoded, byte by byte.
pub open spec fn percent_encoded(bytes: Seq<u8>) -> Seq<char>
    decreases bytes.len(),
{
    if bytes.len() == 0 {
        Seq::empty()
    } else {
        percent_encoded(bytes.drop_last()) + encoded_byte(bytes.last())
    }
}

/// Percent-encodes the UTF-8 bytes of `data` with `urlencoding::encode`.
/// The contract claims what that function documents: every byte is
/// percent-encoded except ASCII letters and digits, `-`, `_`, `.` and `~`,
/// with upper-case hexadecimal digits.
#[verifier::external_body]
fn percent_encode(data: &str) -> (encoded: String)
    ensures
        encoded@ == percent_encoded(encode_utf8(data@)),
{
    urlencoding::encode(data).into_owned()
}

impl ImageReference {
    /// A reference to the image at `image_path`, keyed by the
    /// percent-encoded path.
    pub fn new(image_path: String) -> (reference: Self)
        ensures
            reference.id@ == percent_encoded(encode_utf8(image_path@)),
            reference.image_path == image_path,
    {
        Self { id: percent_encode(image_path.as_str()), image_path }
    }
}

impl ImageReferenceEmbedding {
    /// A reference to the image at `image_path` with its embedding, keyed
    /// by the percent-encoded path.
    pub fn new(image_path: String, embedding: Vec<i32>) -> (reference: Self)
        ensures
            reference.id@ == percent_encoded(encode_utf8(image_path@)),
            reference.image_path == image_path,
            reference.embedding == embedding,
    {
        Self { id: percent_encode(image_path.as_str()), image_path, embedding }
    }
}

} // verus!
