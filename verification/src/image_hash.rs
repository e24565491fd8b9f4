//! Content hash of an image: a digest of the decoded pixels, not of the
//! file, so that a re-import of the same picture is recognised.
use crate::metadata::{clone_key, BaseImageWithImage, ExtractError, Metadata, MetadataProvider};
use sha2::{Digest, Sha256};
use vstd::prelude::*;
use vstd::string::StringExecFns;

verus! {

/// The SHA-256 digest of a byte sequence.
pub uninterp spec fn sha256_digest(data: Seq<u8>) -> Seq<u8>;

/// SHA-256 of `data`, as `sha2::Sha256` computes it through
/// `Digest::new`, `Digest::update` and `Digest::finalize`. The contract
/// claims that the 32 bytes returned are a function of the input bytes
/// alone.
#[verifier::external_body]
fn sha256(data: &Vec<u8>) -> (digest: [u8; 32])
    ensures
        digest@ == sha256_digest(data@),
{
    let mut hasher = Sha256::new();
    hasher.update(data);
    let hash_result = hasher.finalize();
    let mut hash_bytes = [0u8; 32];
    hash_bytes.copy_from_slice(&hash_result[..]);
    hash_bytes
}

/// Extracts the content hash of decoded images.
#[derive(Clone, Copy, Debug)]
pub struct ImageHashMetadataProvider;

/// A content hash and the name of the function that made it.
#[derive(Debug)]
pub struct ImageHashMetadata {
    pub hash_type: String,
    pub hash: [u8; 32],
}

/// What the hash record of `image` holds: no key of its own yet, the key of
/// the image as base, and the SHA-256 digest of the image's pixels.
pub open spec fn is_hash_record(record: Metadata<ImageHashMetadata>, image: BaseImageWithImage)
    -> bool {
    &&& record.id.is_none()
    &&& record.base == image.base_image.id
    &&& record.metadata.is_some()
    &&& record.metadata.unwrap().hash@ == sha256_digest(image.image.pixels@)
    &&& record.metadata.unwrap().hash_type@ == "SHA256"@
}

/// Content hash of one decoded image.
pub fn hash_image(image: &BaseImageWithImage) -> (record: Metadata<ImageHashMetadata>)
    ensures
        is_hash_record(record, *image),
{
    Metadata {
        id: None,
        metadata: Some(
            ImageHashMetadata {
                hash: sha256(&image.image.pixels),
                hash_type: String::from_str("SHA256"),
            },
        ),
        base: clone_key(&image.base_image.id),
    }
}

impl MetadataProvider<BaseImageWithImage, ImageHashMetadata> for ImageHashMetadataProvider {
    /// One hash record per image, in the order of the images. Never fails.
    fn extract(&self, base_images: &Vec<BaseImageWithImage>) -> (results: Result<
        Vec<Metadata<ImageHashMetadata>>,
        ExtractError,
    >)
        ensures
            results.is_ok(),
            results.unwrap()@.len() == base_images@.len(),
            forall|i: int|
                0 <= i < base_images@.len() ==> is_hash_record(
                    #[trigger] results.unwrap()@[i],
                    base_images@[i],
                ),
    {
        let mut results: Vec<Metadata<ImageHashMetadata>> = Vec::new();
        let mut i: usize = 0;
        while i < base_images.len()
            invariant
                i <= base_images.len(),
                results@.len() == i,
                forall|j: int| 0 <= j < i ==> is_hash_record(#[trigger] results@[j], base_images@[j]),
            decreases base_images.len() - i,
        {
            results.push(hash_image(&base_images[i]));
            i += 1;
        }
        Ok(results)
    }
}

/// Images with the same pixels have the same digest, whatever file they
/// were decoded from.
pub proof fn lemma_hash_depends_on_pixels(
    first: Metadata<ImageHashMetadata>,
    a: BaseImageWithImage,
    second: Metadata<ImageHashMetadata>,
    b: BaseImageWithImage,
)
    requires
        is_hash_record(first, a),
        is_hash_record(second, b),
        a.image.pixels@ == b.image.pixels@,
    ensures
        first.metadata.unwrap().hash@ == second.metadata.unwrap().hash@,
        first.metadata.unwrap().hash_type@ == second.metadata.unwrap().hash_type@,
{
}

} // verus!
